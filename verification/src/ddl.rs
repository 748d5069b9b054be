//! Statements that define tables, indexes, sequences and routines.

use std::sync::Arc;

use vstd::prelude::*;
use vstd::string::*;

use crate::ast;
use crate::ast::{ColumnDef, CreateTable, SequenceOption, Statement, TableConstraint};
use crate::catalog;
use crate::catalog::{
    Cat, Catalog, Constraint, Field, Rule, RuleKind, SequenceDef, Sheet, Table, TableColumn,
};
use crate::dml;
use crate::dml::{Column, Counters, Dml, Tally};
use crate::error;
use crate::error::{Failure, OraError};
use crate::eval;
use crate::eval::Scene;
use crate::functions;
use crate::plsql;
use crate::plsql::vars;
use crate::plsql::Routine;
use crate::text;
use crate::tree;
use crate::txn;
use crate::value::{Datum, SqlType, Value};

verus! {

/// One in-memory database instance. Sessions share its committed state.
pub struct Database {
    pub state: Catalog,
    pub counters: Counters,
    /// The number that the next constraint without a name gets.
    pub next_constraint: u64,
    /// The next numbers of the sequences that have given one out.
    pub positions: Vec<(String, i128)>,
}

/// What a database holds.
pub struct Store {
    pub state: Cat,
    pub tally: Tally,
    pub next_constraint: int,
    pub positions: Seq<(Seq<char>, int)>,
}

pub open spec fn named_positions(v: Seq<(String, i128)>) -> Seq<(Seq<char>, int)> {
    Seq::new(v.len(), |i: int| (v[i].0@, v[i].1 as int))
}

impl View for Database {
    type V = Store;

    open spec fn view(&self) -> Store {
        Store {
            state: self.state@,
            tally: self.counters@,
            next_constraint: self.next_constraint as int,
            positions: named_positions(self.positions@),
        }
    }
}

/// A database and why a statement on it failed, if it did.
pub struct Defined {
    pub store: Store,
    pub failure: Option<Failure>,
}

pub open spec fn refused(store: Store, e: Failure) -> Defined {
    Defined { store, failure: Some(e) }
}

/// Whether a statement did what it was due to do, where that was settled.
pub open spec fn defines(d: Defined, after: Store, r: Result<(), OraError>) -> bool {
    d.failure == Some(eval::free()) || (after == d.store && match r {
        Ok(_) => d.failure is None,
        Err(e) => d.failure == Some(e@),
    })
}

/// Whether a statement that makes a table kept to that, whatever its query came to: one
/// that fails leaves every table, sequence and routine as it was, and one that succeeds
/// puts one table behind those that there were.
pub open spec fn adds_a_table(before: Store, after: Store, ok: bool) -> bool {
    if ok {
        &&& after.state.tables.len() == before.state.tables.len() + 1
        &&& after.state.tables.drop_last() == before.state.tables
        &&& after.state.sequences == before.state.sequences
        &&& after.state.routines == before.state.routines
        &&& after.positions == before.positions
    } else {
        after.state == before.state && after.positions == before.positions
    }
}

pub open spec fn name_taken() -> Failure {
    error::failure(955, "name is already used by an existing object"@)
}

fn name_taken_error() -> (e: OraError)
    ensures
        e@ == name_taken(),
{
    OraError::new(955, "name is already used by an existing object")
}

/// A state with one version more.
pub open spec fn bumped(c: Cat) -> Cat {
    Cat { version: txn::next_version(c.version), ..c }
}

// ---- sequences ----

pub const SEQUENCE_MAX: i128 = 9_999_999_999_999_999_999_999_999_999;

pub const SEQUENCE_MIN: i128 = -999_999_999_999_999_999_999_999_999;

/// The options of a sequence while they are read.
pub struct Options {
    pub increment: i128,
    pub start: Option<i128>,
    pub cycle: bool,
    pub min: Option<i128>,
    pub max: Option<i128>,
}

pub open spec fn first_options(was: Option<SequenceDef>) -> Options {
    match was {
        Some(d) => Options {
            increment: d.increment,
            start: None,
            cycle: d.cycle,
            min: Some(d.min),
            max: Some(d.max),
        },
        None => Options { increment: 1, start: None, cycle: false, min: None, max: None },
    }
}

/// The options behind the first `n`.
pub open spec fn read_options(
    was: Option<SequenceDef>,
    options: Seq<SequenceOption>,
    n: int,
) -> Result<Options, Failure>
    decreases n,
{
    if n <= 0 || n > options.len() {
        Ok(first_options(was))
    } else {
        match read_options(was, options, n - 1) {
            Err(e) => Err(e),
            Ok(o) => match options[n - 1] {
                SequenceOption::StartWith(k) => if was is Some {
                    Err(error::failure(2283, "cannot alter starting sequence number"@))
                } else {
                    Ok(Options { start: Some(k), ..o })
                },
                SequenceOption::IncrementBy(k) => if k == 0 {
                    Err(error::failure(4002, "INCREMENT must be a non-zero integer"@))
                } else {
                    Ok(Options { increment: k, ..o })
                },
                SequenceOption::MinValue(k) => Ok(Options { min: k, ..o }),
                SequenceOption::MaxValue(k) => Ok(Options { max: k, ..o }),
                SequenceOption::Cycle(c) => Ok(Options { cycle: c, ..o }),
                SequenceOption::Restart(_) => Ok(o),
            },
        }
    }
}

proof fn options_fail_on(
    was: Option<SequenceDef>,
    options: Seq<SequenceOption>,
    n: int,
    m: int,
)
    requires
        0 <= n <= m <= options.len(),
        read_options(was, options, n) is Err,
    ensures
        read_options(was, options, m) == read_options(was, options, n),
    decreases m - n,
{
    if n < m {
        options_fail_on(was, options, n, m - 1);
    }
}

/// The definition that CREATE or ALTER SEQUENCE options give on top of the defaults or an
/// existing definition.
pub open spec fn sequence_due(was: Option<SequenceDef>, options: Seq<SequenceOption>) -> Result<
    SequenceDef,
    Failure,
> {
    match read_options(was, options, options.len() as int) {
        Err(e) => Err(e),
        Ok(o) => {
            let min = match o.min {
                Some(n) => n,
                None => if o.increment > 0 {
                    1i128
                } else {
                    SEQUENCE_MIN
                },
            };
            let max = match o.max {
                Some(n) => n,
                None => if o.increment > 0 {
                    SEQUENCE_MAX
                } else {
                    -1i128
                },
            };
            let start = match was {
                Some(d) => d.start,
                None => match o.start {
                    Some(n) => n,
                    None => if o.increment > 0 {
                        min
                    } else {
                        max
                    },
                },
            };
            if min >= max {
                Err(error::failure(4028, "cannot generate internal sequence"@))
            } else if was is None && start < min {
                Err(error::failure(4006, "START WITH cannot be less than MINVALUE"@))
            } else if was is None && start > max {
                Err(error::failure(4008, "START WITH cannot be more than MAXVALUE"@))
            } else {
                Ok(SequenceDef { start, increment: o.increment, min, max, cycle: o.cycle })
            }
        },
    }
}

/// Applies CREATE or ALTER SEQUENCE options to the defaults or an existing definition.
#[verifier::loop_isolation(false)]
pub fn sequence_def(was: Option<SequenceDef>, options: &Vec<SequenceOption>) -> (r: Result<
    SequenceDef,
    OraError,
>)
    ensures
        match r {
            Ok(d) => sequence_due(was, options@) == Ok::<SequenceDef, Failure>(d),
            Err(e) => error::failed(sequence_due(was, options@), e),
        },
{
    let mut o = match was {
        Some(d) => Options {
            increment: d.increment,
            start: None,
            cycle: d.cycle,
            min: Some(d.min),
            max: Some(d.max),
        },
        None => Options { increment: 1, start: None, cycle: false, min: None, max: None },
    };
    for i in 0..options.len()
        invariant
            read_options(was, options@, i as int) == Ok::<Options, Failure>(o),
    {
        proof {
            if read_options(was, options@, i + 1) is Err {
                options_fail_on(was, options@, i + 1, options@.len() as int);
            }
        }
        match options[i] {
            SequenceOption::StartWith(k) => {
                if was.is_some() {
                    return Err(OraError::new(2283, "cannot alter starting sequence number"));
                }
                o.start = Some(k);
            },
            SequenceOption::IncrementBy(k) => {
                if k == 0 {
                    return Err(OraError::new(4002, "INCREMENT must be a non-zero integer"));
                }
                o.increment = k;
            },
            SequenceOption::MinValue(k) => {
                o.min = k;
            },
            SequenceOption::MaxValue(k) => {
                o.max = k;
            },
            SequenceOption::Cycle(c) => {
                o.cycle = c;
            },
            SequenceOption::Restart(_) => {},
        }
    }
    let min: i128 = match o.min {
        Some(n) => n,
        None => if o.increment > 0 {
            1
        } else {
            SEQUENCE_MIN
        },
    };
    let max: i128 = match o.max {
        Some(n) => n,
        None => if o.increment > 0 {
            SEQUENCE_MAX
        } else {
            -1
        },
    };
    if min >= max {
        return Err(OraError::new(4028, "cannot generate internal sequence"));
    }
    let start: i128 = match was {
        Some(d) => d.start,
        None => match o.start {
            Some(n) => n,
            None => if o.increment > 0 {
                min
            } else {
                max
            },
        },
    };
    if was.is_none() {
        if start < min {
            return Err(OraError::new(4006, "START WITH cannot be less than MINVALUE"));
        }
        if start > max {
            return Err(OraError::new(4008, "START WITH cannot be more than MAXVALUE"));
        }
    }
    Ok(SequenceDef { start, increment: o.increment, min, max, cycle: o.cycle })
}

/// A created sequence starts within its bounds.
pub proof fn a_new_sequence_starts_within_its_bounds(options: Seq<SequenceOption>)
    requires
        sequence_due(None, options) is Ok,
    ensures
        sequence_due(None, options)->Ok_0.min <= sequence_due(None, options)->Ok_0.start
            <= sequence_due(None, options)->Ok_0.max,
        sequence_due(None, options)->Ok_0.min < sequence_due(None, options)->Ok_0.max,
{
}

pub open spec fn without_position(p: Seq<(Seq<char>, int)>, name: Seq<char>) -> Seq<
    (Seq<char>, int),
> {
    match dml::number_from(p, name, 0) {
        Some(i) => p.remove(i),
        None => p,
    }
}

/// The next numbers with that of one sequence set.
pub open spec fn with_position(p: Seq<(Seq<char>, int)>, name: Seq<char>, n: Option<int>) -> Seq<
    (Seq<char>, int),
> {
    match n {
        Some(n) => without_position(p, name).push((name, n)),
        None => without_position(p, name),
    }
}

impl Database {
    pub fn new() -> (d: Database)
        ensures
            d@ == (Store {
                state: Cat {
                    tables: Seq::empty(),
                    sequences: Seq::empty(),
                    routines: Seq::empty(),
                    version: 0,
                },
                tally: Tally { identities: Seq::empty(), next_row: 1 },
                next_constraint: 1,
                positions: Seq::empty(),
            }),
            d@.state.wf(),
    {
        let d = Database {
            state: Catalog::new(),
            counters: Counters { identities: Vec::new(), next_row: 1 },
            next_constraint: 1,
            positions: Vec::new(),
        };
        assert(d@.tally.identities =~= Seq::empty());
        assert(d@.positions =~= Seq::empty());
        d
    }

    fn position(&self, name: &str) -> (r: Option<usize>)
        ensures
            match r {
                Some(i) => dml::number_from(self@.positions, name@, 0) == Some(i as int) && i
                    < self.positions@.len(),
                None => dml::number_from(self@.positions, name@, 0) is None,
            },
    {
        let total: usize = self.positions.len();
        let mut i: usize = 0;
        while i < total
            invariant
                i <= total == self.positions@.len(),
                dml::number_from(self@.positions, name@, 0) == dml::number_from(
                    self@.positions,
                    name@,
                    i as int,
                ),
            decreases total - i,
        {
            assert(self@.positions[i as int].0 == self.positions@[i as int].0@);
            if text::same(&self.positions[i].0, name) {
                return Some(i);
            }
            i = i + 1;
        }
        None
    }

    pub fn set_sequence(&mut self, name: &str, n: Option<i128>)
        ensures
            final(self)@ == (Store {
                positions: with_position(
                    old(self)@.positions,
                    name@,
                    match n {
                        Some(n) => Some(n as int),
                        None => None,
                    },
                ),
                ..old(self)@
            }),
    {
        let ghost before = self@;
        match self.position(name) {
            Some(i) => {
                self.positions.remove(i);
                assert(self@.positions =~= before.positions.remove(i as int));
            },
            None => {},
        }
        let ghost less = self@.positions;
        match n {
            Some(n) => {
                self.positions.push((name.to_owned(), n));
                assert(self@.positions =~= less.push((name@, n as int)));
            },
            None => {},
        }
    }

    fn create_sequence(&mut self, name: &str, options: &Vec<SequenceOption>) -> (r: Result<
        (),
        OraError,
    >)
        requires
            old(self)@.state.wf(),
        ensures
            defines(create_sequence_due(old(self)@, name@, options@), final(self)@, r),
            final(self)@.state.wf(),
    {
        if self.state.name_in_use(name) {
            return Err(name_taken_error());
        }
        let def = sequence_def(None, options)?;
        self.set_sequence(name, None);
        let ghost before = self@.state;
        self.state.sequences.push((name.to_owned(), def));
        self.state.version = txn::version_after(self.state.version);
        assert(self@.state.sequences =~= before.sequences.push((name@, def)));
        assert(self@.state.tables =~= before.tables);
        Ok(())
    }

    fn alter_sequence(&mut self, name: &str, options: &Vec<SequenceOption>) -> (r: Result<
        (),
        OraError,
    >)
        requires
            old(self)@.state.wf(),
        ensures
            defines(alter_sequence_due(old(self)@, name@, options@), final(self)@, r),
            final(self)@.state.wf(),
    {
        let i = match self.state.sequence(name) {
            Some(i) => i,
            None => {
                return Err(OraError::new(2289, "sequence does not exist"));
            },
        };
        assert(self@.state.sequences[i as int] == (
            self.state.sequences@[i as int].0@,
            self.state.sequences@[i as int].1,
        ));
        let was: SequenceDef = self.state.sequences[i].1;
        let def = sequence_def(Some(was), options)?;
        match self.position(name) {
            Some(k) => {
                assert(self@.positions[k as int].1 == self.positions@[k as int].1);
                let next: i128 = self.positions[k].1;
                let moved = match next.checked_sub(was.increment) {
                    Some(x) => x.checked_add(def.increment),
                    None => None,
                };
                match moved {
                    Some(n) => {
                        self.set_sequence(name, Some(n));
                    },
                    None => {
                        return Err(functions::numeric_overflow());
                    },
                }
            },
            None => {},
        }
        let ghost start = self@;
        for k in 0..options.len()
            invariant
                self@ == (Store {
                    positions: restarted(start.positions, name@, def, options@, k as int),
                    ..start
                }),
        {
            match options[k] {
                SequenceOption::Restart(at) => {
                    let n: i128 = match at {
                        Some(n) => n,
                        None => if def.increment > 0 {
                            def.min
                        } else {
                            def.max
                        },
                    };
                    self.set_sequence(name, Some(n));
                },
                _ => {},
            }
        }
        let ghost before = self@.state;
        self.state.sequences.set(i, (name.to_owned(), def));
        self.state.version = txn::version_after(self.state.version);
        assert(self@.state.sequences =~= before.sequences.update(i as int, (name@, def)));
        assert(self@.state.tables =~= before.tables);
        Ok(())
    }

    fn drop_sequence(&mut self, name: &str) -> (r: Result<(), OraError>)
        requires
            old(self)@.state.wf(),
        ensures
            defines(drop_sequence_due(old(self)@, name@), final(self)@, r),
            final(self)@.state.wf(),
    {
        let i = match self.state.sequence(name) {
            Some(i) => i,
            None => {
                return Err(OraError::new(2289, "sequence does not exist"));
            },
        };
        self.set_sequence(name, None);
        let ghost before = self@.state;
        self.state.sequences.remove(i);
        self.state.version = txn::version_after(self.state.version);
        assert(self@.state.sequences =~= before.sequences.remove(i as int));
        assert(self@.state.tables =~= before.tables);
        Ok(())
    }
}

/// What CREATE SEQUENCE does.
pub open spec fn create_sequence_due(
    store: Store,
    name: Seq<char>,
    options: Seq<SequenceOption>,
) -> Defined {
    if store.state.name_in_use(name) {
        refused(store, name_taken())
    } else {
        match sequence_due(None, options) {
            Err(e) => refused(store, e),
            Ok(def) => Defined {
                store: Store {
                    state: bumped(
                        Cat { sequences: store.state.sequences.push((name, def)), ..store.state },
                    ),
                    positions: with_position(store.positions, name, None),
                    ..store
                },
                failure: None,
            },
        }
    }
}

/// The next numbers behind the RESTART options among the first `n`.
pub open spec fn restarted(
    p: Seq<(Seq<char>, int)>,
    name: Seq<char>,
    def: SequenceDef,
    options: Seq<SequenceOption>,
    n: int,
) -> Seq<(Seq<char>, int)>
    decreases n,
{
    if n <= 0 || n > options.len() {
        p
    } else {
        let before = restarted(p, name, def, options, n - 1);
        match options[n - 1] {
            SequenceOption::Restart(at) => with_position(
                before,
                name,
                Some(
                    match at {
                        Some(k) => k as int,
                        None => if def.increment > 0 {
                            def.min as int
                        } else {
                            def.max as int
                        },
                    },
                ),
            ),
            _ => before,
        }
    }
}

/// What ALTER SEQUENCE does. The next number follows the last one handed out, with the new
/// increment.
pub open spec fn alter_sequence_due(
    store: Store,
    name: Seq<char>,
    options: Seq<SequenceOption>,
) -> Defined {
    match store.state.sequence(name) {
        None => refused(store, error::failure(2289, "sequence does not exist"@)),
        Some(i) => {
            let was = store.state.sequences[i].1;
            match sequence_due(Some(was), options) {
                Err(e) => refused(store, e),
                Ok(def) => {
                    let moved = match dml::number_from(store.positions, name, 0) {
                        Some(k) => {
                            let less = store.positions[k].1 - was.increment;
                            let n = less + def.increment;
                            if i128::MIN <= less <= i128::MAX && i128::MIN <= n <= i128::MAX {
                                Ok::<Seq<(Seq<char>, int)>, Failure>(
                                    with_position(store.positions, name, Some(n)),
                                )
                            } else {
                                Err(functions::overflow())
                            }
                        },
                        None => Ok(store.positions),
                    };
                    match moved {
                        Err(e) => refused(store, e),
                        Ok(p) => Defined {
                            store: Store {
                                state: bumped(
                                    Cat {
                                        sequences: store.state.sequences.update(i, (name, def)),
                                        ..store.state
                                    },
                                ),
                                positions: restarted(p, name, def, options, options.len() as int),
                                ..store
                            },
                            failure: None,
                        },
                    }
                },
            }
        },
    }
}

pub open spec fn drop_sequence_due(store: Store, name: Seq<char>) -> Defined {
    match store.state.sequence(name) {
        None => refused(store, error::failure(2289, "sequence does not exist"@)),
        Some(i) => Defined {
            store: Store {
                state: bumped(
                    Cat { sequences: store.state.sequences.remove(i), ..store.state },
                ),
                positions: with_position(store.positions, name, None),
                ..store
            },
            failure: None,
        },
    }
}

// ---- routines ----

/// What CREATE PROCEDURE or FUNCTION does.
pub open spec fn create_routine_due(store: Store, r: tree::Routine, or_replace: bool) -> Defined {
    match store.state.routine(r.name) {
        Some(i) => if or_replace {
            Defined {
                store: Store {
                    state: bumped(
                        Cat { routines: store.state.routines.update(i, r), ..store.state },
                    ),
                    ..store
                },
                failure: None,
            }
        } else {
            refused(store, name_taken())
        },
        None => if store.state.name_in_use(r.name) {
            refused(store, name_taken())
        } else {
            Defined {
                store: Store {
                    state: bumped(Cat { routines: store.state.routines.push(r), ..store.state }),
                    ..store
                },
                failure: None,
            }
        },
    }
}

pub open spec fn drop_routine_due(store: Store, name: Seq<char>, function: bool) -> Defined {
    let gone = error::failure(4043, "object "@ + name + " does not exist"@);
    match store.state.routine(name) {
        Some(i) => if (store.state.routines[i].returns is Some) == function {
            Defined {
                store: Store {
                    state: bumped(
                        Cat { routines: store.state.routines.remove(i), ..store.state },
                    ),
                    ..store
                },
                failure: None,
            }
        } else {
            refused(store, gone)
        },
        None => refused(store, gone),
    }
}

// ---- tables ----

pub open spec fn drop_table_due(store: Store, name: Seq<char>) -> Defined {
    match store.state.table(name) {
        None => refused(store, error::table_not_found()),
        Some(i) => Defined {
            store: Store {
                state: bumped(Cat { tables: store.state.tables.remove(i), ..store.state }),
                tally: store.tally.without_identity(name),
                ..store
            },
            failure: None,
        },
    }
}

pub open spec fn truncate_due(store: Store, name: Seq<char>) -> Defined {
    match store.state.table(name) {
        None => refused(store, error::table_not_found()),
        Some(i) => Defined {
            store: Store {
                state: bumped(
                    store.state.with_table(
                        i,
                        Sheet { rows: Seq::empty(), ..store.state.tables[i] },
                    ),
                ),
                ..store
            },
            failure: None,
        },
    }
}

/// The positions of the columns that the first `n` names name.
pub open spec fn resolved(columns: Seq<Field>, names: Seq<Seq<char>>, n: int) -> Result<
    Seq<int>,
    Failure,
>
    decreases n,
{
    if n <= 0 || n > names.len() {
        Ok(Seq::empty())
    } else {
        match resolved(columns, names, n - 1) {
            Err(e) => Err(e),
            Ok(out) => match catalog::index_of_field(columns, names[n - 1], 0) {
                None => Err(dml::no_column(names[n - 1])),
                Some(i) => Ok(out.push(i)),
            },
        }
    }
}

proof fn resolved_fails_on(columns: Seq<Field>, names: Seq<Seq<char>>, n: int, m: int)
    requires
        0 <= n <= m <= names.len(),
        resolved(columns, names, n) is Err,
    ensures
        resolved(columns, names, m) == resolved(columns, names, n),
    decreases m - n,
{
    if n < m {
        resolved_fails_on(columns, names, n, m - 1);
    }
}

fn resolve(columns: &Vec<TableColumn>, names: &Vec<String>) -> (r: Result<Vec<usize>, OraError>)
    ensures
        match r {
            Ok(v) => resolved(
                catalog::fields(columns@),
                ast::texts_tree(*names),
                names@.len() as int,
            ) == Ok::<Seq<int>, Failure>(catalog::positions(v@)),
            Err(e) => resolved(
                catalog::fields(columns@),
                ast::texts_tree(*names),
                names@.len() as int,
            ) == Err::<Seq<int>, Failure>(e@),
        },
        r matches Ok(v) ==> forall|k: int| 0 <= k < v@.len() ==> #[trigger] v@[k] < columns@.len(),
{
    let ghost cols = catalog::fields(columns@);
    let ghost all = ast::texts_tree(*names);
    let mut out: Vec<usize> = Vec::new();
    assert(catalog::positions(out@) =~= Seq::empty());
    for i in 0..names.len()
        invariant
            cols == catalog::fields(columns@),
            all == ast::texts_tree(*names),
            resolved(cols, all, i as int) == Ok::<Seq<int>, Failure>(catalog::positions(out@)),
            forall|k: int| 0 <= k < out@.len() ==> #[trigger] out@[k] < columns@.len(),
    {
        assert(all[i as int] == names@[i as int]@);
        match eval::field_index(columns, &names[i]) {
            None => {
                proof {
                    resolved_fails_on(cols, all, i + 1, all.len() as int);
                }
                return Err(dml::no_column_error(&names[i]));
            },
            Some(k) => {
                let ghost before = out@;
                out.push(k);
                assert(catalog::positions(out@) =~= catalog::positions(before).push(k as int));
            },
        }
    }
    Ok(out)
}

/// What CREATE INDEX does.
pub open spec fn create_index_due(
    store: Store,
    name: Seq<char>,
    table: Seq<char>,
    columns: Seq<Seq<char>>,
    unique: bool,
) -> Defined {
    if store.state.name_in_use(name) {
        refused(store, name_taken())
    } else {
        match store.state.table(table) {
            None => refused(store, error::table_not_found()),
            Some(i) => {
                let sheet = store.state.tables[i];
                match resolved(sheet.columns, columns, columns.len() as int) {
                    Err(e) => refused(store, e),
                    Ok(idx) => {
                        let rule = Rule {
                            name,
                            kind: if unique {
                                RuleKind::Unique { columns: idx, primary: false }
                            } else {
                                RuleKind::Index
                            },
                            is_index: true,
                        };
                        if !catalog::distinct_under(rule, sheet.rows) {
                            refused(
                                store,
                                error::failure(
                                    1452,
                                    "cannot CREATE UNIQUE INDEX; duplicate keys found"@,
                                ),
                            )
                        } else {
                            Defined {
                                store: Store {
                                    state: bumped(
                                        store.state.with_table(
                                            i,
                                            Sheet { rules: sheet.rules.push(rule), ..sheet },
                                        ),
                                    ),
                                    ..store
                                },
                                failure: None,
                            }
                        }
                    },
                }
            },
        }
    }
}

pub open spec fn is_index_named(r: Rule, name: Seq<char>) -> bool {
    r.is_index && r.name == name
}

/// The rules among the first `n` that are no index of a name.
pub open spec fn rules_without(rules: Seq<Rule>, name: Seq<char>, n: int) -> Seq<Rule>
    decreases n,
{
    if n <= 0 || n > rules.len() {
        Seq::empty()
    } else if is_index_named(rules[n - 1], name) {
        rules_without(rules, name, n - 1)
    } else {
        rules_without(rules, name, n - 1).push(rules[n - 1])
    }
}

pub open spec fn has_index(s: Sheet, name: Seq<char>) -> bool {
    exists|k: int| 0 <= k < s.rules.len() && is_index_named(#[trigger] s.rules[k], name)
}

/// The first table from `i` on that has an index of a name.
pub open spec fn index_owner(t: Seq<Sheet>, name: Seq<char>, i: int) -> Option<int>
    decreases t.len() - i,
{
    if i < 0 || i >= t.len() {
        None
    } else if has_index(t[i], name) {
        Some(i)
    } else {
        index_owner(t, name, i + 1)
    }
}

pub open spec fn drop_index_due(store: Store, name: Seq<char>) -> Defined {
    match index_owner(store.state.tables, name, 0) {
        None => refused(store, error::failure(1418, "specified index does not exist"@)),
        Some(i) => {
            let sheet = store.state.tables[i];
            Defined {
                store: Store {
                    state: bumped(
                        store.state.with_table(
                            i,
                            Sheet {
                                rules: rules_without(
                                    sheet.rules,
                                    name,
                                    sheet.rules.len() as int,
                                ),
                                ..sheet
                            },
                        ),
                    ),
                    ..store
                },
                failure: None,
            }
        },
    }
}

proof fn fewer_rules(s: Sheet, name: Seq<char>, n: int)
    requires
        0 <= n <= s.rules.len(),
        s.wf(),
        s.unique(),
    ensures
        (Sheet { rules: rules_without(s.rules, name, n), ..s }).wf(),
        (Sheet { rules: rules_without(s.rules, name, n), ..s }).unique(),
    decreases n,
{
    if n > 0 {
        fewer_rules(s, name, n - 1);
        let before = rules_without(s.rules, name, n - 1);
        let after = rules_without(s.rules, name, n);
        assert(catalog::in_table(s.rules[n - 1], s.columns.len() as int));
        assert(catalog::distinct_under(s.rules[n - 1], s.rows));
        assert forall|k: int| 0 <= k < after.len() implies #[trigger] catalog::in_table(
            after[k],
            s.columns.len() as int,
        ) && catalog::distinct_under(after[k], s.rows) by {
            if k < before.len() {
                assert(after[k] == before[k]);
                let less = Sheet { rules: before, ..s };
                assert(catalog::in_table(less.rules[k], less.columns.len() as int));
                assert(catalog::distinct_under(less.rules[k], less.rows));
            }
        }
        let now = Sheet { rules: after, ..s };
        assert forall|k: int| 0 <= k < now.rules.len() implies #[trigger] catalog::distinct_under(
            now.rules[k],
            now.rows,
        ) by {
            assert(catalog::in_table(after[k], s.columns.len() as int));
        }
    }
}

fn index_named(t: &Table, name: &str) -> (r: bool)
    ensures
        r == has_index(t@, name@),
{
    for k in 0..t.constraints.len()
        invariant
            forall|j: int| 0 <= j < k ==> !is_index_named(#[trigger] t@.rules[j], name@),
    {
        assert(t@.rules[k as int] == t.constraints@[k as int]@);
        if t.constraints[k].is_index && text::same(&t.constraints[k].name, name) {
            assert(is_index_named(t@.rules[k as int], name@));
            return true;
        }
    }
    false
}

fn drop_rules(t: &mut Table, name: &str)
    requires
        old(t)@.wf(),
        old(t)@.unique(),
    ensures
        final(t)@ == (Sheet {
            rules: rules_without(old(t)@.rules, name@, old(t)@.rules.len() as int),
            ..old(t)@
        }),
        final(t)@.wf(),
        final(t)@.unique(),
{
    let ghost start = t@;
    let total: usize = t.constraints.len();
    let mut n: usize = 0;
    let mut kept: Vec<Constraint> = Vec::new();
    assert(catalog::rules(kept@) =~= Seq::empty());
    while n < total
        invariant
            n <= total == start.rules.len() == t.constraints@.len(),
            t@ == start,
            catalog::rules(kept@) == rules_without(start.rules, name@, n as int),
        decreases total - n,
    {
        assert(start.rules[n as int] == t.constraints@[n as int]@);
        let c = &t.constraints[n];
        if !(c.is_index && text::same(&c.name, name)) {
            let copied = catalog::copy_constraint(c);
            let ghost before = kept@;
            kept.push(copied);
            assert(catalog::rules(kept@) =~= catalog::rules(before).push(copied@));
        }
        n = n + 1;
    }
    proof {
        fewer_rules(start, name@, total as int);
    }
    t.constraints = kept;
    assert(t@ == (Sheet { rules: catalog::rules(kept@), ..start }));
}

impl Database {
    fn create_routine(&mut self, r: &Arc<Routine>, or_replace: bool) -> (res: Result<(), OraError>)
        requires
            old(self)@.state.wf(),
        ensures
            defines(
                create_routine_due(old(self)@, plsql::routine_tree(**r), or_replace),
                final(self)@,
                res,
            ),
            final(self)@.state.wf(),
    {
        let ghost before = self@.state;
        match self.state.routine(&r.name) {
            Some(i) => {
                if !or_replace {
                    return Err(name_taken_error());
                }
                self.state.routines.set(i, r.clone());
                self.state.version = txn::version_after(self.state.version);
                assert(self@.state.routines =~= before.routines.update(
                    i as int,
                    plsql::routine_tree(**r),
                ));
            },
            None => {
                if self.state.name_in_use(&r.name) {
                    return Err(name_taken_error());
                }
                self.state.routines.push(r.clone());
                self.state.version = txn::version_after(self.state.version);
                assert(self@.state.routines =~= before.routines.push(plsql::routine_tree(**r)));
            },
        }
        assert(self@.state.tables =~= before.tables);
        Ok(())
    }

    fn drop_routine(&mut self, name: &str, function: bool) -> (r: Result<(), OraError>)
        requires
            old(self)@.state.wf(),
        ensures
            defines(drop_routine_due(old(self)@, name@, function), final(self)@, r),
            final(self)@.state.wf(),
    {
        let ghost before = self@.state;
        match self.state.routine(name) {
            Some(i) => {
                assert(before.routines[i as int] == plsql::routine_tree(
                    *self.state.routines@[i as int],
                ));
                if self.state.routines[i].is_function() == function {
                    self.state.routines.remove(i);
                    self.state.version = txn::version_after(self.state.version);
                    assert(self@.state.routines =~= before.routines.remove(i as int));
                    assert(self@.state.tables =~= before.tables);
                    return Ok(());
                }
            },
            None => {},
        }
        let m = text::join(&text::join("object ", name), " does not exist");
        Err(OraError { code: 4043, message: m })
    }

    fn drop_table(&mut self, name: &str) -> (r: Result<(), OraError>)
        requires
            old(self)@.state.wf(),
        ensures
            defines(drop_table_due(old(self)@, name@), final(self)@, r),
            final(self)@.state.wf(),
    {
        let ghost before = self@.state;
        let i = match self.state.table(name) {
            Some(i) => i,
            None => {
                return Err(OraError::table_not_found());
            },
        };
        self.state.tables.remove(i);
        self.state.version = txn::version_after(self.state.version);
        assert(self@.state.tables =~= before.tables.remove(i as int));
        self.counters.drop_identity(name);
        Ok(())
    }

    /// Puts a changed table in its place, in a new version.
    fn put_table(&mut self, i: usize, t: Table)
        requires
            old(self)@.state.wf(),
            i < old(self).state.tables@.len(),
            t@.wf(),
            t@.unique(),
        ensures
            final(self)@ == (Store {
                state: bumped(old(self)@.state.with_table(i as int, t@)),
                ..old(self)@
            }),
            final(self)@.state.wf(),
    {
        self.state.set_table(i, t);
        let ghost before = self@.state;
        self.state.version = txn::version_after(self.state.version);
        assert(self@.state == bumped(before));
    }

    fn truncate(&mut self, name: &str) -> (r: Result<(), OraError>)
        requires
            old(self)@.state.wf(),
        ensures
            defines(truncate_due(old(self)@, name@), final(self)@, r),
            final(self)@.state.wf(),
    {
        let i = match self.state.table(name) {
            Some(i) => i,
            None => {
                return Err(OraError::table_not_found());
            },
        };
        assert(self@.state.tables[i as int] == self.state.tables@[i as int]@);
        let mut t = catalog::copy_table(&self.state.tables[i]);
        assert(t@.wf());
        t.truncate();
        self.put_table(i, t);
        Ok(())
    }

    fn create_index(&mut self, name: &str, table: &str, columns: &Vec<String>, unique: bool) -> (r:
        Result<(), OraError>)
        requires
            old(self)@.state.wf(),
        ensures
            defines(
                create_index_due(
                    old(self)@,
                    name@,
                    table@,
                    ast::texts_tree(*columns),
                    unique,
                ),
                final(self)@,
                r,
            ),
            final(self)@.state.wf(),
    {
        if self.state.name_in_use(name) {
            return Err(name_taken_error());
        }
        let i = match self.state.table(table) {
            Some(i) => i,
            None => {
                return Err(OraError::table_not_found());
            },
        };
        assert(self@.state.tables[i as int] == self.state.tables@[i as int]@);
        let mut t = catalog::copy_table(&self.state.tables[i]);
        assert(t@.wf() && t@.unique());
        let idx = resolve(&t.columns, columns)?;
        if unique {
            match t.add_unique(name.to_owned(), idx, false, true) {
                Ok(_) => {},
                Err(_) => {
                    return Err(
                        OraError::new(1452, "cannot CREATE UNIQUE INDEX; duplicate keys found"),
                    );
                },
            }
        } else {
            t.add_rule(name.to_owned(), catalog::ConstraintKind::Index, true);
        }
        self.put_table(i, t);
        Ok(())
    }

    fn drop_index(&mut self, name: &str) -> (r: Result<(), OraError>)
        requires
            old(self)@.state.wf(),
        ensures
            defines(drop_index_due(old(self)@, name@), final(self)@, r),
            final(self)@.state.wf(),
    {
        let total: usize = self.state.tables.len();
        let mut i: usize = 0;
        while i < total && !index_named(&self.state.tables[i], name)
            invariant
                i <= total == self.state.tables@.len(),
                index_owner(self@.state.tables, name@, 0) == index_owner(
                    self@.state.tables,
                    name@,
                    i as int,
                ),
                *self == *old(self),
            decreases total - i,
        {
            assert(self@.state.tables[i as int] == self.state.tables@[i as int]@);
            i = i + 1;
        }
        if i >= total {
            return Err(OraError::new(1418, "specified index does not exist"));
        }
        assert(self@.state.tables[i as int] == self.state.tables@[i as int]@);
        let mut t = catalog::copy_table(&self.state.tables[i]);
        assert(t@.wf() && t@.unique());
        drop_rules(&mut t, name);
        self.put_table(i, t);
        Ok(())
    }
}

// ---- CREATE TABLE ----

pub open spec fn column_of(c: tree::ColumnDef) -> Field {
    Field {
        name: c.name,
        sql_type: c.sql_type,
        default: c.default,
        not_null: c.not_null,
        identity: c.identity,
    }
}

/// A column of a query's result as a column of a table.
pub open spec fn column_from(c: (Seq<char>, SqlType)) -> Field {
    Field {
        name: c.0,
        sql_type: if c.1 == SqlType::Varchar2(0) {
            SqlType::Varchar2(1)
        } else {
            c.1
        },
        default: None,
        not_null: false,
        identity: false,
    }
}

/// The columns and rows that a table starts with.
pub open spec fn table_start(cat: Cat, s: Scene, ct: tree::CreateTable) -> Result<
    (Seq<Field>, Seq<Seq<Datum>>),
    Failure,
> {
    match ct.as_query {
        Some(q) => match dml::queried(cat, s, *q) {
            Err(e) => Err(e),
            Ok(a) => Ok(
                (Seq::new(a.columns.len(), |i: int| column_from(a.columns[i])), a.rows),
            ),
        },
        None => Ok(
            (Seq::new(ct.columns.len(), |i: int| column_of(ct.columns[i])), Seq::empty()),
        ),
    }
}

fn columns_from(c: &Vec<Column>) -> (r: Vec<TableColumn>)
    ensures
        catalog::fields(r@) == Seq::new(
            dml::described(c@).len(),
            |i: int| column_from(dml::described(c@)[i]),
        ),
{
    let mut out: Vec<TableColumn> = Vec::new();
    for i in 0..c.len()
        invariant
            out@.len() == i,
            forall|k: int|
                0 <= k < i ==> #[trigger] out@[k]@ == column_from(dml::described(c@)[k]),
    {
        assert(dml::described(c@)[i as int] == (c@[i as int].name@, c@[i as int].sql_type));
        let sql_type = match c[i].sql_type {
            SqlType::Varchar2(0) => SqlType::Varchar2(1),
            t => t,
        };
        out.push(
            TableColumn {
                name: c[i].name.clone(),
                sql_type,
                default: None,
                not_null: false,
                identity: false,
            },
        );
    }
    assert(catalog::fields(out@) =~= Seq::new(
        dml::described(c@).len(),
        |i: int| column_from(dml::described(c@)[i]),
    ));
    out
}

fn columns_of(c: &Vec<ColumnDef>) -> (r: Vec<TableColumn>)
    ensures
        catalog::fields(r@) == Seq::new(
            ast::column_defs_tree(*c).len(),
            |i: int| column_of(ast::column_defs_tree(*c)[i]),
        ),
{
    let mut out: Vec<TableColumn> = Vec::new();
    for i in 0..c.len()
        invariant
            out@.len() == i,
            forall|k: int|
                0 <= k < i ==> #[trigger] out@[k]@ == column_of(ast::column_defs_tree(*c)[k]),
    {
        assert(ast::column_defs_tree(*c)[i as int] == c@[i as int]@);
        out.push(
            TableColumn {
                name: c[i].name.clone(),
                sql_type: c[i].sql_type,
                default: ast::copy_opt_expr(&c[i].default),
                not_null: c[i].not_null,
                identity: c[i].identity,
            },
        );
    }
    assert(catalog::fields(out@) =~= Seq::new(
        ast::column_defs_tree(*c).len(),
        |i: int| column_of(ast::column_defs_tree(*c)[i]),
    ));
    out
}

/// Whether two of the columns have one name.
pub open spec fn repeats(columns: Seq<Field>) -> bool {
    exists|a: int, b: int|
        0 <= a < b < columns.len() && (#[trigger] columns[a]).name == (#[trigger] columns[b]).name
}

fn has_repeats(columns: &Vec<TableColumn>) -> (r: bool)
    ensures
        r == repeats(catalog::fields(columns@)),
{
    let ghost f = catalog::fields(columns@);
    let total: usize = columns.len();
    for b in 0..total
        invariant
            total == columns@.len(),
            f == catalog::fields(columns@),
            forall|x: int, y: int|
                0 <= x < y < b ==> (#[trigger] f[x]).name != (#[trigger] f[y]).name,
    {
        for a in 0..b
            invariant
                b < total == columns@.len(),
                f == catalog::fields(columns@),
                forall|x: int| 0 <= x < a ==> (#[trigger] f[x]).name != f[b as int].name,
        {
            assert(f[a as int] == columns@[a as int]@ && f[b as int] == columns@[b as int]@);
            if text::same(&columns[a].name, &columns[b].name) {
                assert(f[a as int].name == f[b as int].name);
                return true;
            }
        }
    }
    false
}

/// The name that a constraint without one gets.
pub open spec fn generated_name(n: int) -> Seq<char> {
    "SYS_C"@ + text::zero_filled(text::decimal(n as nat), 7)
}

fn generate_name(n: u64) -> (s: String)
    ensures
        s@ == generated_name(n as int),
{
    let mut s = "SYS_C".to_owned();
    s.append(&text::decimal_filled(n, 7));
    s
}

pub open spec fn next_number(n: int) -> int {
    if n < u64::MAX {
        n + 1
    } else {
        n
    }
}

/// Columns of which the first `n` positions may not be NULL.
pub open spec fn marked(columns: Seq<Field>, idx: Seq<int>, n: int) -> Seq<Field>
    decreases n,
{
    if n <= 0 || n > idx.len() {
        columns
    } else {
        let before = marked(columns, idx, n - 1);
        before.update(idx[n - 1], Field { not_null: true, ..before[idx[n - 1]] })
    }
}

/// A table while constraints are added to it.
pub struct Ruled {
    pub sheet: Sheet,
    pub next: int,
    pub failure: Option<Failure>,
}

/// A table with one constraint more. Foreign keys are accepted but not enforced.
pub open spec fn with_constraint(r: Ruled, c: tree::TableConstraint) -> Ruled {
    let name = match c.name {
        Some(n) => n,
        None => generated_name(r.next),
    };
    let next = match c.name {
        Some(_) => r.next,
        None => next_number(r.next),
    };
    let sheet = r.sheet;
    match c.kind {
        tree::ConstraintKind::PrimaryKey(cols) => if sheet.has_primary_key() {
            Ruled {
                sheet,
                next,
                failure: Some(error::failure(2260, "table can have only one primary key"@)),
            }
        } else {
            match resolved(sheet.columns, cols, cols.len() as int) {
                Err(e) => Ruled { sheet, next, failure: Some(e) },
                Ok(idx) => Ruled {
                    sheet: Sheet {
                        columns: marked(sheet.columns, idx, idx.len() as int),
                        rules: sheet.rules.push(
                            Rule {
                                name,
                                kind: RuleKind::Unique { columns: idx, primary: true },
                                is_index: false,
                            },
                        ),
                        ..sheet
                    },
                    next,
                    failure: None,
                },
            }
        },
        tree::ConstraintKind::Unique(cols) => match resolved(
            sheet.columns,
            cols,
            cols.len() as int,
        ) {
            Err(e) => Ruled { sheet, next, failure: Some(e) },
            Ok(idx) => Ruled {
                sheet: Sheet {
                    rules: sheet.rules.push(
                        Rule {
                            name,
                            kind: RuleKind::Unique { columns: idx, primary: false },
                            is_index: false,
                        },
                    ),
                    ..sheet
                },
                next,
                failure: None,
            },
        },
        tree::ConstraintKind::Check(e) => Ruled {
            sheet: Sheet {
                rules: sheet.rules.push(Rule { name, kind: RuleKind::Check(e), is_index: false }),
                ..sheet
            },
            next,
            failure: None,
        },
        tree::ConstraintKind::ForeignKey { columns, .. } => match resolved(
            sheet.columns,
            columns,
            columns.len() as int,
        ) {
            Err(e) => Ruled { sheet, next, failure: Some(e) },
            Ok(_) => Ruled { sheet, next, failure: None },
        },
    }
}

/// A table with the first `n` constraints.
pub open spec fn ruled(
    sheet: Sheet,
    next: int,
    constraints: Seq<tree::TableConstraint>,
    n: int,
) -> Ruled
    decreases n,
{
    if n <= 0 || n > constraints.len() {
        Ruled { sheet, next, failure: None }
    } else {
        let r = ruled(sheet, next, constraints, n - 1);
        if r.failure is Some {
            r
        } else {
            with_constraint(r, constraints[n - 1])
        }
    }
}

proof fn ruled_fails_on(
    sheet: Sheet,
    next: int,
    constraints: Seq<tree::TableConstraint>,
    n: int,
    m: int,
)
    requires
        0 <= n <= m <= constraints.len(),
        ruled(sheet, next, constraints, n).failure is Some,
    ensures
        ruled(sheet, next, constraints, m) == ruled(sheet, next, constraints, n),
    decreases m - n,
{
    if n < m {
        ruled_fails_on(sheet, next, constraints, n, m - 1);
    }
}

/// What CREATE TABLE does.
pub open spec fn create_table_due(store: Store, s: Scene, ct: tree::CreateTable) -> Defined {
    match table_start(store.state, s, ct) {
        Err(e) => refused(store, e),
        Ok((columns, rows)) => if store.state.name_in_use(ct.name) {
            refused(store, name_taken())
        } else if repeats(columns) {
            refused(store, dml::duplicate_column())
        } else {
            let empty = Sheet { name: ct.name, columns, rules: Seq::empty(), rows: Seq::empty() };
            let r = ruled(
                empty,
                store.next_constraint,
                ct.constraints,
                ct.constraints.len() as int,
            );
            let numbered = Store { next_constraint: r.next, ..store };
            match r.failure {
                Some(e) => refused(numbered, e),
                None => created(numbered, s, r.sheet, rows),
            }
        },
    }
}

/// What is there once a table has its rows.
pub open spec fn created(store: Store, s: Scene, sheet: Sheet, rows: Seq<Seq<Datum>>) -> Defined {
    if !fits(rows, sheet.columns.len() as int) {
        refused(store, error::failure(913, "too many values"@))
    } else {
        let f = dml::filled(
            s.env.user,
            sheet,
            store.tally.next_row,
            rows,
            rows.len() as int,
        );
        let filled = Store { tally: Tally { next_row: f.next_row, ..store.tally }, ..store };
        match f.failure {
            Some(e) => refused(filled, e),
            None => Defined {
                store: Store {
                    state: bumped(
                        Cat { tables: filled.state.tables.push(f.sheet), ..filled.state },
                    ),
                    tally: filled.tally.without_identity(sheet.name),
                    ..filled
                },
                failure: None,
            },
        }
    }
}

pub open spec fn fits(rows: Seq<Seq<Datum>>, width: int) -> bool {
    forall|k: int| 0 <= k < rows.len() ==> (#[trigger] rows[k]).len() == width
}

fn mark_columns(t: &mut Table, idx: &Vec<usize>)
    requires
        old(t).wf(),
        old(t)@.unique(),
        forall|k: int| 0 <= k < idx@.len() ==> #[trigger] idx@[k] < old(t).columns@.len(),
    ensures
        final(t)@ == (Sheet {
            columns: marked(
                old(t)@.columns,
                catalog::positions(idx@),
                idx@.len() as int,
            ),
            ..old(t)@
        }),
        final(t).wf(),
        final(t)@.unique(),
        final(t)@.columns.len() == old(t)@.columns.len(),
{
    let ghost start = t@;
    let ghost all = catalog::positions(idx@);
    for n in 0..idx.len()
        invariant
            all == catalog::positions(idx@),
            start.wf(),
            start.unique(),
            forall|k: int| 0 <= k < idx@.len() ==> #[trigger] idx@[k] < t.columns@.len(),
            t@ == (Sheet { columns: marked(start.columns, all, n as int), ..start }),
            t@.columns.len() == start.columns.len() == t.columns@.len(),
    {
        let i: usize = idx[n];
        assert(all[n as int] == i);
        let ghost before = t@;
        assert(before.columns[i as int] == t.columns@[i as int]@);
        let mut c = catalog::copy_column(&t.columns[i]);
        c.not_null = true;
        t.columns.set(i, c);
        assert(t@.columns =~= before.columns.update(
            i as int,
            Field { not_null: true, ..before.columns[i as int] },
        ));
        assert(t@.rules =~= before.rules);
        assert(t@.rows =~= before.rows);
    }
    assert forall|k: int| 0 <= k < t@.rules.len() implies #[trigger] catalog::in_table(
        t@.rules[k],
        t@.columns.len() as int,
    ) by {
        assert(catalog::in_table(start.rules[k], start.columns.len() as int));
    }
    assert forall|k: int| 0 <= k < t@.rows.len() implies (#[trigger] t@.rows[k]).1.len()
        == t@.columns.len() by {
        assert(start.rows[k].1.len() == start.columns.len());
    }
    assert forall|k: int| 0 <= k < t@.rules.len() implies #[trigger] catalog::distinct_under(
        t@.rules[k],
        t@.rows,
    ) by {
        assert(catalog::distinct_under(start.rules[k], start.rows));
    }
}

/// Adds a constraint to a table without rows.
fn add_constraint(t: &mut Table, next: &mut u64, c: &TableConstraint) -> (r: Result<(), OraError>)
    requires
        old(t).wf(),
        old(t)@.unique(),
        old(t)@.rows.len() == 0,
    ensures
        ({
            let due = with_constraint(
                Ruled { sheet: old(t)@, next: *old(next) as int, failure: None },
                c@,
            );
            &&& *final(next) == due.next
            &&& match r {
                Ok(_) => due.failure is None && final(t)@ == due.sheet,
                Err(e) => due.failure == Some(e@),
            }
        }),
        r is Ok ==> final(t).wf() && final(t)@.unique() && final(t)@.rows.len() == 0
            && final(t)@.columns.len() == old(t)@.columns.len(),
{
    assert(c@.name == ast::opt_text_tree(c.name));
    assert(c@.kind == ast::constraint_kind_tree(c.kind));
    let name = match &c.name {
        Some(n) => n.clone(),
        None => {
            let n: u64 = *next;
            if n < u64::MAX {
                *next = n + 1;
            }
            generate_name(n)
        },
    };
    match &c.kind {
        ast::ConstraintKind::PrimaryKey(cols) => {
            assert(ast::texts_tree(*cols).len() == cols@.len());
            if t.has_primary_key() {
                return Err(OraError::new(2260, "table can have only one primary key"));
            }
            let idx = resolve(&t.columns, cols)?;
            assert(catalog::positions(idx@).len() == idx@.len());
            mark_columns(t, &idx);
            let _ = t.add_unique(name, idx, true, false);
        },
        ast::ConstraintKind::Unique(cols) => {
            assert(ast::texts_tree(*cols).len() == cols@.len());
            let idx = resolve(&t.columns, cols)?;
            let _ = t.add_unique(name, idx, false, false);
        },
        ast::ConstraintKind::Check(e) => {
            let copied = ast::copy_expr(e);
            t.add_rule(name, catalog::ConstraintKind::Check(copied), false);
        },
        ast::ConstraintKind::ForeignKey { columns, .. } => {
            assert(ast::texts_tree(*columns).len() == columns@.len());
            let _ = resolve(&t.columns, columns)?;
        },
    }
    Ok(())
}

impl Database {
    fn start_table(&self, ctx: &Dml, ct: &CreateTable) -> (r: Result<
        (Vec<TableColumn>, Vec<Vec<Value>>),
        OraError,
    >)
        requires
            self@.state.wf(),
        ensures
            ({
                let due = table_start(self@.state, ctx@, ct@);
                due == Err::<(Seq<Field>, Seq<Seq<Datum>>), Failure>(eval::free()) || match r {
                    Ok((c, rows)) => due == Ok::<(Seq<Field>, Seq<Seq<Datum>>), Failure>(
                        (catalog::fields(c@), vars::value_rows(rows@)),
                    ),
                    Err(e) => due == Err::<(Seq<Field>, Seq<Seq<Datum>>), Failure>(e@),
                }
            }),
    {
        assert(ct@.as_query == ast::opt_boxed_query_tree(ct.as_query));
        assert(ct@.columns == ast::column_defs_tree(ct.columns));
        match &ct.as_query {
            Some(q) => {
                assert(ct@.as_query == Some(Box::new(ast::query_tree(**q))));
                let rel = dml::query(&self.state, ctx, q)?;
                Ok((columns_from(&rel.columns), rel.rows))
            },
            None => {
                let rows: Vec<Vec<Value>> = Vec::new();
                assert(vars::value_rows(rows@) =~= Seq::empty());
                Ok((columns_of(&ct.columns), rows))
            },
        }
    }

    fn finish_table(&mut self, ctx: &Dml, t: Table, rows: &Vec<Vec<Value>>) -> (r: Result<
        (),
        OraError,
    >)
        requires
            old(self)@.state.wf(),
            t.wf(),
            t@.unique(),
        ensures
            defines(created(old(self)@, ctx@, t@, vars::value_rows(rows@)), final(self)@, r),
            final(self)@.state.wf(),
            adds_a_table(old(self)@, final(self)@, r is Ok),
    {
        let width: usize = t.columns.len();
        for k in 0..rows.len()
            invariant
                forall|j: int| 0 <= j < k ==> (#[trigger] rows@[j])@.len() == width,
                width == t@.columns.len(),
                *self == *old(self),
                self@.state.wf(),
        {
            if rows[k].len() != width {
                assert(vars::value_rows(rows@)[k as int] == functions::views(rows@[k as int]@));
                return Err(OraError::new(913, "too many values"));
            }
        }
        assert forall|k: int| 0 <= k < rows@.len() implies (#[trigger] vars::value_rows(
            rows@,
        )[k]).len() == width by {
            assert(rows@[k]@.len() == width);
        }
        let mut t = t;
        let name = t.name.clone();
        dml::fill_table(&ctx.env.user, &mut t, &mut self.counters, rows)?;
        let ghost before = self@.state;
        let ghost added = t@;
        self.state.tables.push(Arc::new(t));
        self.state.version = txn::version_after(self.state.version);
        assert(self@.state.tables =~= before.tables.push(added));
        assert(self@.state.tables.drop_last() =~= before.tables);
        self.counters.drop_identity(&name);
        Ok(())
    }

    fn create_table(&mut self, ctx: &Dml, ct: &CreateTable) -> (r: Result<(), OraError>)
        requires
            old(self)@.state.wf(),
        ensures
            defines(create_table_due(old(self)@, ctx@, ct@), final(self)@, r),
            final(self)@.state.wf(),
            adds_a_table(old(self)@, final(self)@, r is Ok),
    {
        assert(ct@.constraints == ast::table_constraints_tree(ct.constraints));
        let ghost store = self@;
        let (columns, rows) = self.start_table(ctx, ct)?;
        if self.state.name_in_use(&ct.name) {
            return Err(name_taken_error());
        }
        if has_repeats(&columns) {
            return Err(OraError::new(957, "duplicate column name"));
        }
        let mut t = Table::new(ct.name.clone(), columns);
        let ghost empty = t@;
        let ghost all = ast::table_constraints_tree(ct.constraints);
        let mut next: u64 = self.next_constraint;
        for i in 0..ct.constraints.len()
            invariant
                store == old(self)@,
                self@ == store,
                store.state.wf(),
                all == ast::table_constraints_tree(ct.constraints),
                ct@.constraints == all,
                t.wf(),
                t@.unique(),
                t@.rows.len() == 0,
                ruled(empty, store.next_constraint, all, i as int) == (Ruled {
                    sheet: t@,
                    next: next as int,
                    failure: None,
                }),
                table_start(store.state, ctx@, ct@) == Err::<
                    (Seq<Field>, Seq<Seq<Datum>>),
                    Failure,
                >(eval::free()) || create_table_due(store, ctx@, ct@) == ({
                    let r = ruled(empty, store.next_constraint, all, all.len() as int);
                    let numbered = Store { next_constraint: r.next, ..store };
                    match r.failure {
                        Some(e) => refused(numbered, e),
                        None => created(numbered, ctx@, r.sheet, vars::value_rows(rows@)),
                    }
                }),
        {
            assert(all[i as int] == ct.constraints@[i as int]@);
            proof {
                if ruled(empty, store.next_constraint, all, i + 1).failure is Some {
                    ruled_fails_on(
                        empty,
                        store.next_constraint,
                        all,
                        i + 1,
                        all.len() as int,
                    );
                }
            }
            match add_constraint(&mut t, &mut next, &ct.constraints[i]) {
                Ok(_) => {},
                Err(e) => {
                    self.next_constraint = next;
                    return Err(e);
                },
            }
        }
        self.next_constraint = next;
        self.finish_table(ctx, t, &rows)
    }

    /// Runs a statement that defines something.
    pub fn ddl(&mut self, ctx: &Dml, stmt: &Statement) -> (r: Result<(), OraError>)
        requires
            old(self)@.state.wf(),
        ensures
            defines(ddl_due(old(self)@, ctx@, stmt@), final(self)@, r),
            final(self)@.state.wf(),
            stmt is CreateTable ==> adds_a_table(old(self)@, final(self)@, r is Ok),
    {
        proof {
            reveal(ddl_due);
        }
        match stmt {
            Statement::CreateTable(ct) => self.create_table(ctx, ct),
            Statement::DropTable { name } => self.drop_table(name),
            Statement::Truncate { name } => self.truncate(name),
            Statement::CreateIndex { name, table, columns, unique } => self.create_index(
                name,
                table,
                columns,
                *unique,
            ),
            Statement::DropIndex { name } => self.drop_index(name),
            Statement::CreateSequence { name, options } => self.create_sequence(name, options),
            Statement::AlterSequence { name, options } => self.alter_sequence(name, options),
            Statement::DropSequence { name } => self.drop_sequence(name),
            Statement::CreateRoutine { routine, or_replace } => self.create_routine(
                routine,
                *or_replace,
            ),
            Statement::DropRoutine { name, function } => self.drop_routine(name, *function),
            _ => Err(OraError::new(900, "invalid SQL statement")),
        }
    }
}

/// What a statement that defines something does.
#[verifier::opaque]
pub open spec fn ddl_due(store: Store, s: Scene, stmt: tree::Statement) -> Defined {
    match stmt {
        tree::Statement::CreateTable(ct) => create_table_due(store, s, ct),
        tree::Statement::DropTable { name } => drop_table_due(store, name),
        tree::Statement::Truncate { name } => truncate_due(store, name),
        tree::Statement::CreateIndex { name, table, columns, unique } => create_index_due(
            store,
            name,
            table,
            columns,
            unique,
        ),
        tree::Statement::DropIndex { name } => drop_index_due(store, name),
        tree::Statement::CreateSequence { name, options } => create_sequence_due(
            store,
            name,
            options,
        ),
        tree::Statement::AlterSequence { name, options } => alter_sequence_due(
            store,
            name,
            options,
        ),
        tree::Statement::DropSequence { name } => drop_sequence_due(store, name),
        tree::Statement::CreateRoutine { routine, or_replace } => create_routine_due(
            store,
            *routine,
            or_replace,
        ),
        tree::Statement::DropRoutine { name, function } => drop_routine_due(store, name, function),
        _ => refused(store, error::failure(900, "invalid SQL statement"@)),
    }
}

} // verus!
