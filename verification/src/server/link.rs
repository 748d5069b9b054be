//! One client connection: what each request does to it and what it is answered.

use std::collections::HashMap;

use vstd::prelude::*;
use vstd::string::*;
use vstd::utf8::*;

use crate::datetime;
use crate::dml;
use crate::dml::Column;
use crate::engine;
use crate::engine::{Answered, QueryResult};
use crate::error;
use crate::error::{Failure, OraError};
use crate::functions;
use crate::plsql::vars;
use crate::server::auth;
use crate::server::auth::{Challenge, LoginError, PhaseOne, Refusal, Secrets};
use crate::server::message;
use crate::server::message::{
    write_describe,
    write_error,
    write_protocol,
    write_status,
    write_value,
    MSG_DATA_TYPES,
    MSG_FUNCTION,
    MSG_PARAMETER,
    MSG_PIGGYBACK,
    MSG_PROTOCOL,
    MSG_ROW_DATA,
    MSG_ROW_HEADER,
};
use crate::server::request;
use crate::server::request::{ExecuteParts, Field, LoginParts};
use crate::server::tns;
use crate::server::tns::{invalid, ConnectRequest, Packet, ProtocolError};
use crate::server::ttc;
use crate::server::ttc::{ReadBuf, Reading, WriteBuf};
use crate::session;
use crate::session::{Buffer, Seat, Session, World};
use crate::ddl::{Database, Store};
use crate::text;
use crate::value::{Datum, SqlType, Value};

verus! {

broadcast use vstd::std_specs::hash::group_hash_axioms;

/// Function codes.
pub const FUNC_REEXECUTE: u8 = 4;

pub const FUNC_FETCH: u8 = 5;

pub const FUNC_LOGOFF: u8 = 9;

pub const FUNC_COMMIT: u8 = 14;

pub const FUNC_ROLLBACK: u8 = 15;

pub const FUNC_REEXECUTE_AND_FETCH: u8 = 78;

pub const FUNC_EXECUTE: u8 = 94;

pub const FUNC_CLOSE_CURSORS: u8 = 105;

pub const FUNC_AUTH_PHASE_TWO: u8 = 115;

pub const FUNC_AUTH_PHASE_ONE: u8 = 118;

pub const FUNC_PING: u8 = 147;

/// End-of-call status flag telling the client a transaction is open.
pub const CALL_STATUS_TXN_IN_PROGRESS: u32 = 0x02;

/// Reported as 19.0.0.0.0.
pub const SERVER_VERSION_NO: u32 = 318767104;

pub const ORA_NO_DATA_FOUND: u32 = 1403;

/// How far a login has come.
pub enum LoginState {
    Nobody,
    Challenged { user: String, challenge: Challenge },
    LoggedIn,
}

/// A login's state in terms of what it holds.
pub enum Stage {
    Nobody,
    Challenged { user: Seq<char>, secrets: Secrets },
    LoggedIn,
}

impl View for LoginState {
    type V = Stage;

    open spec fn view(&self) -> Stage {
        match self {
            LoginState::Nobody => Stage::Nobody,
            LoginState::Challenged { user, challenge } => Stage::Challenged {
                user: user@,
                secrets: challenge@,
            },
            LoginState::LoggedIn => Stage::LoggedIn,
        }
    }
}

/// A statement that ran, and the rows that it found.
pub struct Cursor {
    pub sql: String,
    pub bind_types: Vec<u8>,
    pub columns: Vec<Column>,
    pub rows: Vec<Vec<Value>>,
    /// How many of the rows were sent.
    pub fetched: usize,
}

/// A cursor in terms of what it holds: the rows are those not sent yet.
pub struct CursorParts {
    pub sql: Seq<char>,
    pub bind_types: Seq<u8>,
    pub columns: Seq<(Seq<char>, SqlType)>,
    pub pending: Seq<Seq<Datum>>,
    pub fetched: int,
}

pub open spec fn behind(rows: Seq<Seq<Datum>>, n: int) -> Seq<Seq<Datum>> {
    if n <= rows.len() {
        rows.skip(n)
    } else {
        Seq::empty()
    }
}

impl View for Cursor {
    type V = CursorParts;

    open spec fn view(&self) -> CursorParts {
        CursorParts {
            sql: self.sql@,
            bind_types: self.bind_types@,
            columns: dml::described(self.columns@),
            pending: behind(vars::value_rows(self.rows@), self.fetched as int),
            fetched: self.fetched as int,
        }
    }
}

/// A connection behind the handshake.
pub struct Connection {
    pub password: String,
    pub service_name: String,
    pub login: LoginState,
    /// The database session; a fresh one when somebody logs in.
    pub session: Session,
    pub cursors: HashMap<u32, Cursor>,
    pub next_cursor_id: u32,
}

/// A connection and the database it works on, in terms of what they hold.
pub struct State {
    pub password: Seq<char>,
    pub service: Seq<char>,
    pub stage: Stage,
    pub seat: Seat,
    pub cursors: Map<u32, CursorParts>,
    pub next: u32,
    pub store: Store,
}

pub open spec fn open_cursors(m: Map<u32, Cursor>) -> Map<u32, CursorParts> {
    m.map_values(|c: Cursor| c@)
}

pub open spec fn world_of(a: State) -> World {
    World { seat: a.seat, store: a.store }
}

/// A connection whose session and database have moved on.
pub open spec fn moved(a: State, w: World) -> State {
    State { seat: w.seat, store: w.store, ..a }
}

/// The end-of-call status: whether a transaction is open.
pub open spec fn status_of(a: State) -> int {
    match a.seat.txn {
        Some(t) => if t.log.len() > 0 {
            2
        } else {
            0
        },
        None => 0,
    }
}

pub open spec fn bad_cursor() -> Option<Failure> {
    Some(error::failure(1001, "invalid cursor"@))
}

pub open spec fn no_more() -> Option<Failure> {
    Some(error::failure(1403, "no data found"@))
}

/// A cursor's number as it is written: its low sixteen bits.
pub open spec fn short_id(id: u32) -> int {
    id as int % 65536
}

/// Sending up to `max` rows of a cursor: ORA-01403 comes with the last ones.
pub open spec fn rows_sent(a: State, id: u32, max: int) -> (State, Seq<u8>) {
    if !a.cursors.contains_key(id) {
        (a, message::error_bytes(status_of(a), 0, 0, bad_cursor()))
    } else {
        let c = a.cursors[id];
        let n = message::shorter(max, c.pending.len() as int);
        let left = CursorParts { pending: c.pending.skip(n), fetched: c.fetched + n, ..c };
        (
            State { cursors: a.cursors.insert(id, left), ..a },
            message::header_bytes(n) + message::rows_bytes(c.pending, c.columns, n)
                + message::error_bytes(
                status_of(a),
                short_id(id),
                c.fetched + n,
                if left.pending.len() == 0 {
                    no_more()
                } else {
                    None
                },
            ),
        )
    }
}

/// What a statement's run is asked for.
pub struct Order {
    /// The cursor that runs again; 0 for a new one.
    pub id: u32,
    pub sql: Seq<char>,
    pub bind_types: Seq<u8>,
    pub rows: Seq<Seq<Datum>>,
    pub executions: int,
    pub fetch: int,
    pub commit: bool,
}

/// What a statement that ran leaves and is answered.
pub open spec fn closed(
    a: State,
    cursor_id: u32,
    sql: Seq<char>,
    bind_types: Seq<u8>,
    fetch: int,
    answer: Answered,
    affected: int,
) -> (State, Seq<u8>) {
    let id = if cursor_id == 0 {
        a.next
    } else {
        cursor_id
    };
    let b = State {
        cursors: a.cursors.insert(
            id,
            CursorParts {
                sql,
                bind_types,
                columns: answer.columns,
                pending: answer.rows,
                fetched: 0,
            },
        ),
        next: if cursor_id == 0 {
            following(a.next)
        } else {
            a.next
        },
        ..a
    };
    if answer.is_query {
        let s = rows_sent(b, id, fetch);
        (s.0, message::describe_bytes(answer.columns) + s.1)
    } else {
        (b, message::error_bytes(status_of(b), short_id(id), affected, None))
    }
}

/// The cursor number behind another one.
pub open spec fn following(id: u32) -> u32 {
    if id == u32::MAX {
        0
    } else {
        (id + 1) as u32
    }
}

/// Whether executing a statement once, at some time of day, led from one world to
/// another with a result.
#[verifier::opaque]
pub open spec fn step(
    u: World,
    sql: Seq<char>,
    binds: Seq<Datum>,
    w: World,
    r: Result<QueryResult, OraError>,
) -> bool {
    exists|v: World| #[trigger]
        engine::same_but_time(u, v) && engine::carries_out(v, sql, binds, w, r)
}

/// One of several runs of a statement: what it left, how many rows were touched
/// up to it, and its answer.
pub struct Leg {
    pub world: World,
    pub affected: int,
    pub answer: Answered,
}

/// The binds of the `i`-th run.
pub open spec fn row_binds(rows: Seq<Seq<Datum>>, i: int) -> Seq<Datum> {
    if 0 <= i < rows.len() {
        rows[i]
    } else {
        Seq::empty()
    }
}

pub open spec fn world_after(a: World, trace: Seq<Leg>) -> World {
    if trace.len() == 0 {
        a
    } else {
        trace.last().world
    }
}

pub open spec fn affected_after(trace: Seq<Leg>) -> int {
    if trace.len() == 0 {
        0
    } else {
        trace.last().affected
    }
}

/// The number of rows touched by two runs, as a machine word.
pub open spec fn both(x: int, y: int) -> int {
    (x + y) % 0x1_0000_0000_0000_0000
}

/// Whether the `i`-th run follows from those before it.
pub open spec fn follows(a: World, sql: Seq<char>, rows: Seq<Seq<Datum>>, trace: Seq<Leg>, i: int) -> bool {
    exists|q: QueryResult| #[trigger]
        step(
            world_after(a, trace.take(i)),
            sql,
            row_binds(rows, i),
            trace[i].world,
            Ok::<QueryResult, OraError>(q),
        ) && trace[i].answer == q@ && trace[i].affected == both(
            affected_after(trace.take(i)),
            q.rows_affected as int,
        )
}

/// Whether a statement can have run as a trace says.
pub open spec fn traced(a: World, sql: Seq<char>, rows: Seq<Seq<Datum>>, trace: Seq<Leg>) -> bool {
    forall|i: int| 0 <= i < trace.len() ==> #[trigger] follows(a, sql, rows, trace, i)
}

/// How often a statement runs: once for each row of binds, or as often as the
/// request says, and once at least.
pub open spec fn runs(o: Order) -> int {
    if o.rows.len() > 0 {
        o.rows.len() as int
    } else if o.executions > 1 {
        o.executions
    } else {
        1
    }
}

/// Whether the run behind a trace failed, leaving `b` and the answer.
pub open spec fn broke_off(a: State, o: Order, trace: Seq<Leg>, b: State, out: Seq<u8>) -> bool {
    exists|w: World, e: OraError| #[trigger]
        step(
            world_after(world_of(a), trace),
            o.sql,
            row_binds(o.rows, trace.len() as int),
            w,
            Err::<QueryResult, OraError>(e),
        ) && b == moved(a, w) && out == message::error_bytes(
            status_of(b),
            short_id(o.id),
            affected_after(trace),
            Some(e@),
        )
}

/// The answer to a statement whose runs all succeeded.
pub open spec fn answered(a: State, o: Order, trace: Seq<Leg>) -> (State, Seq<u8>) {
    closed(
        a,
        o.id,
        o.sql,
        o.bind_types,
        o.fetch,
        trace.last().answer,
        affected_after(trace),
    )
}

/// What comes behind the last run: a commit where it is asked for, and the answer.
pub open spec fn completed(a: State, o: Order, trace: Seq<Leg>) -> (State, Seq<u8>) {
    let w = world_after(world_of(a), trace);
    if o.commit {
        let c = session::commit_due(w);
        match c.result {
            Err(e) => (
                moved(a, c.world),
                message::error_bytes(0, short_id(o.id), affected_after(trace), Some(e)),
            ),
            Ok(_) => answered(moved(a, c.world), o, trace),
        }
    } else {
        answered(moved(a, w), o, trace)
    }
}

/// Whether running a statement can leave `b` and the answer: the first run that
/// fails ends it, with the rows of the earlier ones counted.
#[verifier::opaque]
pub open spec fn stated(a: State, o: Order, b: State, out: Seq<u8>) -> bool {
    exists|trace: Seq<Leg>| #[trigger]
        traced(world_of(a), o.sql, o.rows, trace) && if trace.len() < runs(o) {
            broke_off(a, o, trace, b, out)
        } else {
            trace.len() == runs(o) && (b, out) == completed(a, o, trace)
        }
}

/// The answer to the first part of a login.
#[verifier::opaque]
pub open spec fn challenge_bytes(p: PhaseOne) -> Seq<u8> {
    seq![MSG_PARAMETER] + ttc::ub_bytes(5) + ttc::key_value_bytes("AUTH_SESSKEY"@, p.sesskey@, 0)
        + ttc::key_value_bytes(
        "AUTH_VFR_DATA"@,
        p.vfr_data@,
        auth::VERIFIER_TYPE_12C as nat,
    ) + ttc::key_value_bytes("AUTH_PBKDF2_CSK_SALT"@, p.csk_salt@, 0) + ttc::key_value_bytes(
        "AUTH_PBKDF2_VGEN_COUNT"@,
        p.vgen_count@,
        0,
    ) + ttc::key_value_bytes("AUTH_PBKDF2_SDER_COUNT"@, p.sder_count@, 0) + message::status_bytes(0)
}

/// The answer to a login that succeeds.
#[verifier::opaque]
pub open spec fn welcome_bytes(response: Seq<char>, service: Seq<char>) -> Seq<u8> {
    seq![MSG_PARAMETER] + ttc::ub_bytes(12) + ttc::key_value_bytes(
        "AUTH_SVR_RESPONSE"@,
        response,
        0,
    ) + ttc::key_value_bytes("AUTH_VERSION_NO"@, text::decimal(318767104), 0) + ttc::key_value_bytes(
        "AUTH_VERSION_STRING"@,
        "- Mock"@,
        0,
    ) + ttc::key_value_bytes("AUTH_SESSION_ID"@, "1"@, 0) + ttc::key_value_bytes(
        "AUTH_SERIAL_NUM"@,
        "1"@,
        0,
    ) + ttc::key_value_bytes("AUTH_SC_SERVICE_NAME"@, service, 0) + ttc::key_value_bytes(
        "AUTH_SC_DB_DOMAIN"@,
        ""@,
        0,
    ) + ttc::key_value_bytes("AUTH_SC_DBUNIQUE_NAME"@, "MOCK"@, 0) + ttc::key_value_bytes(
        "AUTH_SC_REAL_DBUNIQUE_NAME"@,
        "MOCK"@,
        0,
    ) + ttc::key_value_bytes("AUTH_INSTANCENAME"@, "MOCK"@, 0) + ttc::key_value_bytes(
        "AUTH_DBNAME"@,
        service,
        0,
    ) + ttc::key_value_bytes("AUTH_MAX_IDEN_LENGTH"@, "128"@, 0) + message::status_bytes(0)
}

pub open spec fn denied() -> Option<Failure> {
    Some(error::failure(1017, "invalid credential or not authorized; logon denied"@))
}

/// Whether the first part of a login can lead from `a` to `b` with an outcome.
#[verifier::opaque]
pub open spec fn challenged(a: State, s: Seq<u8>, b: State, out: Result<Seq<u8>, Seq<char>>) -> bool {
    match request::read_login(s).0 {
        Err(e) => b == a && out == Err::<Seq<u8>, Seq<char>>(e),
        Ok(l) => exists|salt: Seq<u8>, csk: Seq<u8>, key: Seq<u8>, p: PhaseOne|
            salt.len() == 16 && csk.len() == 16 && key.len() == 32 && #[trigger] auth::announces(
                p,
                #[trigger] auth::secrets_of(a.password, salt, csk, key),
                salt,
            ) && out == Ok::<Seq<u8>, Seq<char>>(challenge_bytes(p)) && b == (State {
                stage: Stage::Challenged {
                    user: l.user,
                    secrets: auth::secrets_of(a.password, salt, csk, key),
                },
                ..a
            }),
    }
}

/// The text without the zero characters at its end.
pub open spec fn without_zeros(s: Seq<char>) -> Seq<char>
    decreases s.len(),
{
    if s.len() > 0 && s.last() == '\0' {
        without_zeros(s.drop_last())
    } else {
        s
    }
}

/// What came under a key, or nothing.
pub open spec fn sent_under(l: LoginParts, key: Seq<char>) -> Seq<char> {
    match request::pair_value(l.pairs, key, l.pairs.len() as int) {
        Some(v) => v,
        None => Seq::empty(),
    }
}

/// Whether a session is as one that a user has just opened.
pub open spec fn opened(seat: Seat, user: Seq<char>) -> bool {
    seat.env.user == text::upper(user) && seat.env.date_format == datetime::DEFAULT_DATE_FORMAT@
        && seat.env.timestamp_format == datetime::DEFAULT_TIMESTAMP_FORMAT@ && seat.txn is None
        && seat.commits == 0 && seat.output == (Buffer {
        enabled: false,
        lines: Seq::empty(),
        partial: Seq::empty(),
        bytes: 0,
    })
}

/// Whether executing a statement without binds, whatever came of it, led from one
/// world to another.
#[verifier::opaque]
pub open spec fn tried(u: World, sql: Seq<char>, w: World) -> bool {
    (exists|q: QueryResult| #[trigger]
        step(u, sql, Seq::empty(), w, Ok::<QueryResult, OraError>(q))) || (exists|e: OraError|
     #[trigger]
        step(u, sql, Seq::empty(), w, Err::<QueryResult, OraError>(e)))
}

/// Whether a user who has just logged in can find `w`: the client's time zone is
/// set by a statement that comes with the login, and a failure of it is ignored.
#[verifier::opaque]
pub open spec fn entered(l: LoginParts, user: Seq<char>, store: Store, w: World) -> bool {
    exists|seat: Seat| #[trigger]
        opened(seat, user) && match request::pair_value(
            l.pairs,
            "AUTH_ALTER_SESSION"@,
            l.pairs.len() as int,
        ) {
            None => w == (World { seat, store }),
            Some(stmt) => tried(World { seat, store }, without_zeros(stmt), w),
        }
}

/// Whether a reply proves that the server holds a key, too.
pub open spec fn welcomed(key: Seq<u8>, service: Seq<char>, out: Seq<u8>) -> bool {
    exists|salt: Seq<u8>|
        salt.len() == 16 && out == welcome_bytes(
            #[trigger] auth::response_text(key, salt),
            text::upper(service),
        )
}

/// The key that a client's login gives, when it proves that it knows the password.
#[verifier::opaque]
pub open spec fn key_of(a: State, l: LoginParts) -> Result<Seq<u8>, Refusal> {
    match a.stage {
        Stage::Challenged { user, secrets } => auth::checked(
            secrets,
            sent_under(l, "AUTH_SESSKEY"@),
            sent_under(l, "AUTH_PASSWORD"@),
            a.password,
        ),
        _ => Err(Refusal::InvalidCredentials),
    }
}

/// Whether a login was checked as it is due.
pub open spec fn checks(
    a: State,
    l: LoginParts,
    x: Result<(String, String), Option<ProtocolError>>,
) -> bool {
    match key_of(a, l) {
        Ok(key) => x is Ok && a.stage is Challenged && x->Ok_0.0@ == a.stage->user
            && exists|salt: Seq<u8>|
            salt.len() == 16 && x->Ok_0.1@ == #[trigger] auth::response_text(key, salt),
        Err(Refusal::InvalidCredentials) => x is Err && x->Err_0 is None,
        Err(Refusal::Protocol(m)) => a.stage is Challenged && x is Err && x->Err_0 is Some
            && x->Err_0->0@ == m,
    }
}

/// Whether the second part of a login can lead from `a` to `b` with an outcome.
#[verifier::opaque]
pub open spec fn admitted(a: State, s: Seq<u8>, b: State, out: Result<Seq<u8>, Seq<char>>) -> bool {
    let gone = State { stage: Stage::Nobody, ..a };
    match request::read_login(s).0 {
        Err(e) => b == a && out == Err::<Seq<u8>, Seq<char>>(e),
        Ok(l) => match a.stage {
            Stage::Challenged { user, secrets } => match key_of(a, l) {
                Err(Refusal::InvalidCredentials) => b == gone && out == Ok::<Seq<u8>, Seq<char>>(
                    message::error_bytes(0, 0, 0, denied()),
                ),
                Err(Refusal::Protocol(m)) => b == gone && out == Err::<Seq<u8>, Seq<char>>(m),
                Ok(key) => {
                    &&& out is Ok && welcomed(key, a.service, out->Ok_0)
                    &&& b == (State { stage: Stage::LoggedIn, seat: b.seat, store: b.store, ..a })
                    &&& entered(l, user, a.store, world_of(b))
                },
            },
            _ => b == gone && out == Ok::<Seq<u8>, Seq<char>>(
                message::error_bytes(0, 0, 0, denied()),
            ),
        },
    }
}

/// What an execute request asks for; a request without a statement takes that of
/// a cursor.
pub open spec fn ordered(a: State, p: ExecuteParts) -> Option<Order> {
    match p.sql {
        Some(sql) => Some(
            Order {
                id: 0,
                sql,
                bind_types: p.bind_types,
                rows: p.bind_rows,
                executions: p.executions,
                fetch: p.fetch,
                commit: p.commit,
            },
        ),
        None => if a.cursors.contains_key(p.cursor_id as u32) {
            Some(
                Order {
                    id: p.cursor_id as u32,
                    sql: a.cursors[p.cursor_id as u32].sql,
                    bind_types: p.bind_types,
                    rows: p.bind_rows,
                    executions: p.executions,
                    fetch: p.fetch,
                    commit: p.commit,
                },
            )
        } else {
            None
        },
    }
}

/// Whether an order, or the want of one, can lead from `a` to `b` with an outcome.
pub open spec fn obeyed(a: State, o: Option<Order>, b: State, out: Result<Seq<u8>, Seq<char>>) -> bool {
    match o {
        None => b == a && out == Ok::<Seq<u8>, Seq<char>>(
            message::error_bytes(status_of(a), 0, 0, bad_cursor()),
        ),
        Some(o) => out is Ok && stated(a, o, b, out->Ok_0),
    }
}

#[verifier::opaque]
pub open spec fn execution(a: State, s: Seq<u8>, b: State, out: Result<Seq<u8>, Seq<char>>) -> bool {
    match request::read_execute_parts(s, a.seat.env.offset).0 {
        Err(e) => b == a && out == Err::<Seq<u8>, Seq<char>>(e),
        Ok(p) => obeyed(a, ordered(a, p), b, out),
    }
}

pub open spec fn four() -> Seq<Field> {
    seq![Field::Long, Field::Long, Field::Long, Field::Long]
}

/// What a request to execute a cursor's statement again asks for.
pub open spec fn ordered_again(a: State, s: Seq<u8>) -> Result<Option<Order>, Seq<char>> {
    let head = request::read_fields(s, four());
    match head.0 {
        Err(e) => Err(e),
        Ok(h) => {
            let id = h[0] as u32;
            if !a.cursors.contains_key(id) {
                Ok(None)
            } else {
                let c = a.cursors[id];
                let rows = if c.bind_types.len() > 0 {
                    request::read_rows(head.1, c.bind_types, a.seat.env.offset, Seq::empty()).0
                } else {
                    Ok(Seq::empty())
                };
                match rows {
                    Err(e) => Err(e),
                    Ok(rows) => Ok(
                        Some(
                            Order {
                                id,
                                sql: c.sql,
                                bind_types: c.bind_types,
                                rows,
                                executions: if c.columns.len() == 0 {
                                    h[1]
                                } else {
                                    1
                                },
                                fetch: if request::has_bit(h[2], 0x20) {
                                    h[1]
                                } else {
                                    0
                                },
                                commit: request::has_bit(h[3], 1),
                            },
                        ),
                    ),
                }
            }
        },
    }
}

#[verifier::opaque]
pub open spec fn execution_again(a: State, s: Seq<u8>, b: State, out: Result<Seq<u8>, Seq<char>>) -> bool {
    match ordered_again(a, s) {
        Err(e) => b == a && out == Err::<Seq<u8>, Seq<char>>(e),
        Ok(o) => obeyed(a, o, b, out),
    }
}

/// A fetch: the cursor's number and how many rows are wanted.
pub open spec fn fetching(a: State, s: Seq<u8>) -> (State, Result<Seq<u8>, Seq<char>>) {
    match request::read_fields(s, seq![Field::Long, Field::Long]).0 {
        Err(e) => (a, Err(e)),
        Ok(h) => {
            let x = rows_sent(a, h[0] as u32, h[1]);
            (x.0, Ok(x.1))
        },
    }
}

pub open spec fn committing(a: State) -> (State, Seq<u8>) {
    let c = session::commit_due(world_of(a));
    let b = moved(a, c.world);
    match c.result {
        Ok(_) => (b, message::status_bytes(status_of(b))),
        Err(e) => (b, message::error_bytes(status_of(b), 0, 0, Some(e))),
    }
}

pub open spec fn rolled_back(a: State) -> State {
    State {
        seat: Seat {
            txn: None,
            commits: crate::txn::next_version(a.seat.commits),
            ..a.seat
        },
        ..a
    }
}

/// Whether a call can lead from `a` to `b` with an outcome. Before a login only
/// the calls that log in are served.
#[verifier::opaque]
pub open spec fn called(a: State, func: u8, s: Seq<u8>, b: State, out: Result<Seq<u8>, Seq<char>>) -> bool {
    if func == FUNC_AUTH_PHASE_ONE {
        challenged(a, s, b, out)
    } else if func == FUNC_AUTH_PHASE_TWO {
        admitted(a, s, b, out)
    } else if !(a.stage is LoggedIn) {
        b == a && out == Ok::<Seq<u8>, Seq<char>>(
            message::error_bytes(0, 0, 0, Some(error::failure(1012, "not logged on"@))),
        )
    } else if func == FUNC_EXECUTE {
        execution(a, s, b, out)
    } else if func == FUNC_REEXECUTE || func == FUNC_REEXECUTE_AND_FETCH {
        execution_again(a, s, b, out)
    } else if func == FUNC_FETCH {
        (b, out) == fetching(a, s)
    } else if func == FUNC_COMMIT {
        b == committing(a).0 && out == Ok::<Seq<u8>, Seq<char>>(committing(a).1)
    } else if func == FUNC_ROLLBACK || func == FUNC_LOGOFF {
        b == rolled_back(a) && out == Ok::<Seq<u8>, Seq<char>>(message::status_bytes(0))
    } else if func == FUNC_PING {
        b == a && out == Ok::<Seq<u8>, Seq<char>>(message::status_bytes(status_of(a)))
    } else {
        b == a && out == Err::<Seq<u8>, Seq<char>>(
            "unsupported function "@ + text::decimal(func as nat),
        )
    }
}

/// The cursors left when `n` numbers are read and their cursors closed.
pub open spec fn closing(s: Seq<u8>, cursors: Map<u32, CursorParts>, n: int) -> (
    Map<u32, CursorParts>,
    Reading<()>,
)
    decreases n,
{
    if n <= 0 {
        (cursors, (Ok(()), s))
    } else {
        let x = ttc::read_ub(s, 4);
        match x.0 {
            Err(e) => (cursors, (Err(e), x.1)),
            Ok(id) => closing(x.1, cursors.remove(id as u32), n - 1),
        }
    }
}

pub open spec fn three() -> Seq<Field> {
    seq![Field::Byte, Field::Byte, Field::Byte]
}

/// The call behind the requests to close cursors at a message's front: what these
/// leave, and the call's code and the rest.
pub open spec fn opening(s: Seq<u8>, cursors: Map<u32, CursorParts>) -> (
    Map<u32, CursorParts>,
    Result<(u8, Seq<u8>), Seq<char>>,
)
    decreases s.len(),
{
    let head = request::read_fields(s, three());
    match head.0 {
        Err(e) => (cursors, Err(e)),
        Ok(h) => if h[0] == MSG_FUNCTION {
            (cursors, Ok(((h[1] % 256) as u8, head.1)))
        } else if h[0] != MSG_PIGGYBACK {
            (cursors, Err("unexpected TTC message type "@ + text::decimal(h[0] as nat)))
        } else if h[1] != FUNC_CLOSE_CURSORS {
            (cursors, Err("unsupported piggyback function "@ + text::decimal(h[1] as nat)))
        } else {
            let count = request::read_fields(head.1, seq![Field::Byte, Field::Long]);
            match count.0 {
                Err(e) => (cursors, Err(e)),
                Ok(c) => {
                    let x = closing(count.1, cursors, c[1]);
                    match x.1.0 {
                        Err(e) => (x.0, Err(e)),
                        Ok(_) => if x.1.1.len() < s.len() {
                            opening(x.1.1, x.0)
                        } else {
                            (x.0, Err(Seq::empty()))
                        },
                    }
                },
            }
        },
    }
}

/// The answer to a request that is malformed or asks for what is not supported.
pub open spec fn refusal(a: State) -> Seq<u8> {
    message::error_bytes(
        status_of(a),
        0,
        0,
        Some(error::failure(3115, "unsupported network datatype or representation"@)),
    )
}

/// Whether a request can lead from `a` to `b` with a reply.
pub open spec fn dispatched(a: State, s: Seq<u8>, b: State, reply: Seq<u8>) -> bool {
    if s.len() > 0 && s[0] == MSG_PROTOCOL {
        b == a && reply == message::protocol_bytes()
    } else if s.len() > 0 && s[0] == MSG_DATA_TYPES {
        b == a && reply == seq![MSG_DATA_TYPES, 0u8, 0u8]
    } else if s.len() > 0 && (s[0] == MSG_FUNCTION || s[0] == MSG_PIGGYBACK) {
        let x = opening(s, a.cursors);
        let at = State { cursors: x.0, ..a };
        match x.1 {
            Err(_) => b == at && reply == refusal(b),
            Ok((func, rest)) => called(at, func, rest, b, Ok(reply)) || (reply == refusal(b) && exists|
                e: Seq<char>,
            | #[trigger]
                called(at, func, rest, b, Err(e))),
        }
    } else {
        b == a && reply == refusal(a)
    }
}

/// Each number that is read takes at least a byte.
proof fn fields_shrink(s: Seq<u8>, kinds: Seq<Field>)
    ensures
        request::read_fields(s, kinds).1.len() <= s.len(),
        request::read_fields(s, kinds).0 is Ok ==> request::read_fields(s, kinds).1.len()
            + kinds.len() <= s.len(),
    decreases kinds.len(),
{
    if kinds.len() > 0 {
        fields_shrink(s, kinds.drop_last());
    }
}

proof fn closing_shrinks(s: Seq<u8>, cursors: Map<u32, CursorParts>, n: int)
    ensures
        closing(s, cursors, n).1.1.len() <= s.len(),
    decreases n,
{
    if n > 0 {
        let x = ttc::read_ub(s, 4);
        match x.0 {
            Ok(id) => {
                closing_shrinks(x.1, cursors.remove(id as u32), n - 1);
            },
            Err(_) => {},
        }
    }
}

/// Writes a row's values, as far as there are columns for them.
fn write_row(out: &mut WriteBuf, row: &Vec<Value>, columns: &Vec<Column>)
    ensures
        final(out)@ == old(out)@ + message::row_bytes(
            functions::views(row@),
            dml::described(columns@),
            message::shorter(row@.len() as int, columns@.len() as int),
        ),
{
    let ghost d = functions::views(row@);
    let ghost c = dml::described(columns@);
    let n: usize = if row.len() < columns.len() {
        row.len()
    } else {
        columns.len()
    };
    let ghost start = out@;
    assert(start + message::row_bytes(d, c, 0) =~= start);
    for i in 0..n
        invariant
            n <= row@.len(),
            n <= columns@.len(),
            d == functions::views(row@),
            c == dml::described(columns@),
            start == old(out)@,
            out@ == start + message::row_bytes(d, c, i as int),
    {
        assert(d[i as int] == row@[i as int]@);
        assert(c[i as int] == (columns@[i as int].name@, columns@[i as int].sql_type));
        write_value(out, &row[i], columns[i].sql_type);
        assert(out@ =~= start + message::row_bytes(d, c, i + 1));
    }
}

/// Writes `n` rows from the `from`-th on.
fn write_rows(out: &mut WriteBuf, c: &Cursor, from: usize, n: usize)
    requires
        from + n <= c.rows@.len(),
    ensures
        final(out)@ == old(out)@ + message::rows_bytes(
            vars::value_rows(c.rows@).skip(from as int),
            dml::described(c.columns@),
            n as int,
        ),
{
    let ghost rows = vars::value_rows(c.rows@).skip(from as int);
    let ghost cols = dml::described(c.columns@);
    let ghost start = out@;
    assert(start + message::rows_bytes(rows, cols, 0) =~= start);
    for i in 0..n
        invariant
            from + n <= c.rows@.len(),
            rows == vars::value_rows(c.rows@).skip(from as int),
            cols == dml::described(c.columns@),
            start == old(out)@,
            out@ == start + message::rows_bytes(rows, cols, i as int),
    {
        let ghost had = message::rows_bytes(rows, cols, i as int);
        assert(rows[i as int] == functions::views(c.rows@[from + i]@));
        out.u8(MSG_ROW_DATA);
        assert(out@ =~= start + (had + seq![MSG_ROW_DATA]));
        let total: usize = c.rows.len();
        assert(from + i < total);
        write_row(out, &c.rows[from + i], &c.columns);
        assert(out@ =~= start + message::rows_bytes(rows, cols, i + 1));
    }
}

fn write_header(out: &mut WriteBuf, n: u32)
    ensures
        final(out)@ == old(out)@ + message::header_bytes(n as int),
{
    if n > 0 {
        let mut w = WriteBuf::new();
        w.u8(MSG_ROW_HEADER);
        assert(w@ =~= seq![MSG_ROW_HEADER]);
        message::write_zeros(&mut w, 3);
        w.ub4(n);
        message::write_zeros(&mut w, 3);
        out.raw(&w.buf);
    } else {
        assert(out@ + message::header_bytes(0) =~= out@);
    }
}

/// Writes the answer to the first part of a login.
pub fn write_challenge(out: &mut WriteBuf, p: &PhaseOne)
    ensures
        final(out)@ == old(out)@ + challenge_bytes(*p),
{
    proof {
        reveal(challenge_bytes);
    }
    let mut w = WriteBuf::new();
    w.u8(MSG_PARAMETER);
    assert(w@ =~= seq![MSG_PARAMETER]);
    w.ub2(5);
    w.key_value("AUTH_SESSKEY", &p.sesskey, 0);
    w.key_value("AUTH_VFR_DATA", &p.vfr_data, auth::VERIFIER_TYPE_12C);
    w.key_value("AUTH_PBKDF2_CSK_SALT", &p.csk_salt, 0);
    w.key_value("AUTH_PBKDF2_VGEN_COUNT", &p.vgen_count, 0);
    w.key_value("AUTH_PBKDF2_SDER_COUNT", &p.sder_count, 0);
    write_status(&mut w, 0);
    assert(w@ == challenge_bytes(*p));
    out.raw(&w.buf);
}

/// Writes the answer to a login that succeeds.
pub fn write_welcome(out: &mut WriteBuf, response: &str, service: &str)
    ensures
        final(out)@ == old(out)@ + welcome_bytes(response@, service@),
{
    proof {
        reveal(welcome_bytes);
    }
    let version = text::decimal_text(SERVER_VERSION_NO as u64);
    let mut w = WriteBuf::new();
    w.u8(MSG_PARAMETER);
    assert(w@ =~= seq![MSG_PARAMETER]);
    w.ub2(12);
    w.key_value("AUTH_SVR_RESPONSE", response, 0);
    w.key_value("AUTH_VERSION_NO", &version, 0);
    w.key_value("AUTH_VERSION_STRING", "- Mock", 0);
    w.key_value("AUTH_SESSION_ID", "1", 0);
    w.key_value("AUTH_SERIAL_NUM", "1", 0);
    w.key_value("AUTH_SC_SERVICE_NAME", service, 0);
    w.key_value("AUTH_SC_DB_DOMAIN", "", 0);
    w.key_value("AUTH_SC_DBUNIQUE_NAME", "MOCK", 0);
    w.key_value("AUTH_SC_REAL_DBUNIQUE_NAME", "MOCK", 0);
    w.key_value("AUTH_INSTANCENAME", "MOCK", 0);
    w.key_value("AUTH_DBNAME", service, 0);
    w.key_value("AUTH_MAX_IDEN_LENGTH", "128", 0);
    write_status(&mut w, 0);
    assert(w@ == welcome_bytes(response@, service@));
    out.raw(&w.buf);
}

fn trim_zeros(s: &str) -> (r: String)
    ensures
        r@ == without_zeros(s@),
{
    let v = text::chars_of(s);
    let mut n: usize = v.len();
    assert(v@.take(n as int) =~= s@);
    while n > 0 && v[n - 1] == '\0'
        invariant
            n <= v@.len(),
            without_zeros(s@) == without_zeros(v@.take(n as int)),
        decreases n,
    {
        assert(v@.take(n as int).drop_last() =~= v@.take(n - 1));
        n = n - 1;
    }
    let kept = text::slice(&v, 0, n);
    assert(kept@ =~= v@.take(n as int));
    text::string_of(&kept)
}

fn copied(v: &Vec<u8>) -> (r: Vec<u8>)
    ensures
        r@ == v@,
{
    vstd::slice::slice_to_vec(v.as_slice())
}

fn failed(status: u32, code: u32, message: &str) -> (out: WriteBuf)
    ensures
        out@ == message::error_bytes(
            status as int,
            0,
            0,
            Some(error::failure(code as int, message@)),
        ),
{
    let mut out = WriteBuf::new();
    let e = OraError::new(code, message);
    write_error(&mut out, status, 0, 0, Some(&e));
    assert(Seq::<u8>::empty() + out@ =~= out@);
    out
}

/// A trace with one more run behind it.
proof fn traced_on(
    a: World,
    sql: Seq<char>,
    rows: Seq<Seq<Datum>>,
    trace: Seq<Leg>,
    leg: Leg,
    q: QueryResult,
)
    requires
        traced(a, sql, rows, trace),
        step(
            world_after(a, trace),
            sql,
            row_binds(rows, trace.len() as int),
            leg.world,
            Ok::<QueryResult, OraError>(q),
        ),
        leg.answer == q@,
        leg.affected == both(affected_after(trace), q.rows_affected as int),
    ensures
        traced(a, sql, rows, trace.push(leg)),
{
    let t = trace.push(leg);
    assert forall|i: int| 0 <= i < t.len() implies #[trigger] follows(a, sql, rows, t, i) by {
        assert(t.take(i) =~= trace.take(i));
        if i < trace.len() {
            assert(follows(a, sql, rows, trace, i));
            assert(t[i] == trace[i]);
        } else {
            assert(t.take(i) =~= trace);
        }
    }
}

/// Whether all runs of a statement led to a world with an answer.
pub open spec fn all_ran(
    a: World,
    sql: Seq<char>,
    rows: Seq<Seq<Datum>>,
    runs: int,
    b: World,
    answer: Answered,
    affected: int,
) -> bool {
    exists|trace: Seq<Leg>| #[trigger]
        traced(a, sql, rows, trace) && trace.len() == runs && world_after(a, trace) == b
            && trace.last().answer == answer && affected_after(trace) == affected
}

/// Whether a run of a statement failed and left a world.
pub open spec fn one_failed(
    a: World,
    sql: Seq<char>,
    rows: Seq<Seq<Datum>>,
    runs: int,
    b: World,
    e: OraError,
    affected: int,
) -> bool {
    exists|trace: Seq<Leg>| #[trigger]
        traced(a, sql, rows, trace) && trace.len() < runs && step(
            world_after(a, trace),
            sql,
            row_binds(rows, trace.len() as int),
            b,
            Err::<QueryResult, OraError>(e),
        ) && affected_after(trace) == affected
}

/// Executes a statement once.
fn execute_once(session: &mut Session, db: &mut Database, sql: &str, binds: &Vec<Value>) -> (r: Result<
    QueryResult,
    OraError,
>)
    requires
        old(session).wf(),
        old(db)@.state.wf(),
    ensures
        final(session).wf(),
        final(db)@.state.wf(),
        step(
            World { seat: old(session)@, store: old(db)@ },
            sql@,
            functions::views(binds@),
            World { seat: final(session)@, store: final(db)@ },
            r,
        ),
{
    proof {
        reveal(step);
    }
    session.execute(db, sql, binds)
}

/// Runs a statement `runs` times, up to the first failure.
pub fn run_all(
    session: &mut Session,
    db: &mut Database,
    sql: &str,
    rows: &Vec<Vec<Value>>,
    runs: usize,
) -> (r: Result<(QueryResult, u64), (OraError, u64)>)
    requires
        old(session).wf(),
        old(db)@.state.wf(),
        runs > 0,
    ensures
        final(session).wf(),
        final(db)@.state.wf(),
        ({
            let a = World { seat: old(session)@, store: old(db)@ };
            let b = World { seat: final(session)@, store: final(db)@ };
            match r {
                Ok((q, n)) => all_ran(
                    a,
                    sql@,
                    vars::value_rows(rows@),
                    runs as int,
                    b,
                    q@,
                    n as int,
                ),
                Err((e, n)) => one_failed(
                    a,
                    sql@,
                    vars::value_rows(rows@),
                    runs as int,
                    b,
                    e,
                    n as int,
                ),
            }
        }),
{
    let ghost a = World { seat: session@, store: db@ };
    let ghost all = vars::value_rows(rows@);
    let ghost mut trace: Seq<Leg> = Seq::empty();
    let mut affected: u64 = 0;
    let mut i: usize = 0;
    let none: Vec<Value> = Vec::new();
    assert(functions::views(none@) =~= Seq::<Datum>::empty());
    loop
        invariant
            session.wf(),
            db@.state.wf(),
            a == (World { seat: old(session)@, store: old(db)@ }),
            all == vars::value_rows(rows@),
            functions::views(none@) == Seq::<Datum>::empty(),
            i < runs,
            trace.len() == i,
            traced(a, sql@, all, trace),
            world_after(a, trace) == (World { seat: session@, store: db@ }),
            affected == affected_after(trace),
        decreases runs - i,
    {
        let ghost u = World { seat: session@, store: db@ };
        let ghost binds = row_binds(all, i as int);
        let r = if i < rows.len() {
            assert(binds == functions::views(rows@[i as int]@));
            execute_once(session, db, sql, &rows[i])
        } else {
            execute_once(session, db, sql, &none)
        };
        let ghost w = World { seat: session@, store: db@ };
        assert(step(u, sql@, binds, w, r));
        match r {
            Err(e) => {
                assert(one_failed(a, sql@, all, runs as int, w, e, affected as int));
                return Err((e, affected));
            },
            Ok(q) => {
                let ghost leg = Leg {
                    world: w,
                    affected: both(affected as int, q.rows_affected as int),
                    answer: q@,
                };
                proof {
                    traced_on(a, sql@, all, trace, leg, q);
                    trace = trace.push(leg);
                }
                affected =
                ((affected as u128 + q.rows_affected as u128) % 0x1_0000_0000_0000_0000) as u64;
                i = i + 1;
                if i == runs {
                    assert(all_ran(a, sql@, all, runs as int, w, q@, affected as int));
                    return Ok((q, affected));
                }
            },
        }
    }
}

impl Connection {
    /// The connection and a database, in terms of what they hold.
    pub open spec fn state(&self, store: Store) -> State {
        State {
            password: self.password@,
            service: self.service_name@,
            stage: self.login@,
            seat: self.session@,
            cursors: open_cursors(self.cursors@),
            next: self.next_cursor_id,
            store,
        }
    }

    /// A connection to a service on which nobody has logged in.
    pub fn new(password: String, service_name: String) -> (c: Connection)
        ensures
            c.password@ == password@,
            c.service_name@ == service_name@,
            c.login@ is Nobody,
            c.session.wf(),
            c.session@.txn is None,
            c.cursors@ == Map::<u32, Cursor>::empty(),
            c.next_cursor_id == 1,
    {
        Connection {
            password,
            service_name,
            login: LoginState::Nobody,
            session: Session::new(""),
            cursors: HashMap::new(),
            next_cursor_id: 1,
        }
    }

    /// The end-of-call status: whether a transaction is open.
    pub fn call_status(&self) -> (n: u32)
        ensures
            forall|store: Store| n == status_of(#[trigger] self.state(store)),
    {
        if self.session.in_transaction() {
            CALL_STATUS_TXN_IN_PROGRESS
        } else {
            0
        }
    }

    /// Writes up to `max` pending rows of a cursor, then the end-of-call message:
    /// ORA-01403 when the cursor is exhausted, success otherwise.
    pub fn send_rows(&mut self, db: &Database, cursor_id: u32, max: u32) -> (out: WriteBuf)
        ensures
            (final(self).state(db@), out@) == rows_sent(old(self).state(db@), cursor_id, max as int),
            final(self).session == old(self).session,
    {
        let ghost a = self.state(db@);
        let status: u32 = self.call_status();
        assert(status == status_of(self.state(db@)));
        let mut c = match self.cursors.remove(&cursor_id) {
            Some(c) => c,
            None => {
                assert(self.cursors@ =~= old(self).cursors@);
                return failed(status, 1001, "invalid cursor");
            },
        };
        let ghost part = c@;
        assert(a.cursors[cursor_id] == part);
        let left: usize = if c.fetched <= c.rows.len() {
            c.rows.len() - c.fetched
        } else {
            0
        };
        let n: usize = if (max as usize) < left {
            max as usize
        } else {
            left
        };
        assert(n == message::shorter(max as int, part.pending.len() as int));
        let mut out = WriteBuf::new();
        write_header(&mut out, n as u32);
        assert(out@ =~= message::header_bytes(n as int));
        if n > 0 {
            write_rows(&mut out, &c, c.fetched, n);
        } else {
            assert(out@ =~= out@ + message::rows_bytes(part.pending, part.columns, 0));
        }
        c.fetched = c.fetched + n;
        assert(c@.pending =~= part.pending.skip(n as int));
        let fetched: u64 = c.fetched as u64;
        let done = n == left;
        let ghost kept = c@;
        self.cursors.insert(cursor_id, c);
        assert(open_cursors(self.cursors@) =~= a.cursors.insert(cursor_id, kept));
        let short: u16 = (cursor_id % 65536) as u16;
        if done {
            let e = OraError::new(ORA_NO_DATA_FOUND, "no data found");
            write_error(&mut out, status, short, fetched, Some(&e));
        } else {
            write_error(&mut out, status, short, fetched, None);
        }
        out
    }

    /// Keeps the cursor of a statement that ran and writes the answer.
    pub fn close(
        &mut self,
        db: &Database,
        cursor_id: u32,
        sql: String,
        bind_types: Vec<u8>,
        result: QueryResult,
        rows_affected: u64,
        fetch: u32,
    ) -> (out: WriteBuf)
        ensures
            (final(self).state(db@), out@) == closed(
                old(self).state(db@),
                cursor_id,
                sql@,
                bind_types@,
                fetch as int,
                result@,
                rows_affected as int,
            ),
            final(self).session == old(self).session,
    {
        let ghost a = self.state(db@);
        let ghost answer = result@;
        let id: u32 = if cursor_id == 0 {
            let id: u32 = self.next_cursor_id;
            self.next_cursor_id = if id == u32::MAX {
                0
            } else {
                id + 1
            };
            id
        } else {
            cursor_id
        };
        let is_query = result.is_query;
        let mut front = WriteBuf::new();
        if is_query {
            write_describe(&mut front, &result.columns);
            assert(front@ =~= message::describe_bytes(answer.columns));
        }
        let c = Cursor {
            sql,
            bind_types,
            columns: result.columns,
            rows: result.rows,
            fetched: 0,
        };
        let ghost part = c@;
        assert(part.pending =~= answer.rows);
        self.cursors.insert(id, c);
        assert(open_cursors(self.cursors@) =~= a.cursors.insert(id, part));
        if is_query {
            let rest = self.send_rows(db, id, fetch);
            front.raw(&rest.buf);
            front
        } else {
            let status: u32 = self.call_status();
            assert(status == status_of(self.state(db@)));
            write_error(&mut front, status, (id % 65536) as u16, rows_affected, None);
            assert(Seq::<u8>::empty() + front@ =~= front@);
            front
        }
    }
}


impl Connection {
    /// Executes a statement once per bind row (or `executions` times without binds)
    /// and writes the describe info, the first `fetch` rows and the closing
    /// error/status message.
    pub fn run_statement(
        &mut self,
        db: &mut Database,
        cursor_id: u32,
        sql: String,
        bind_types: Vec<u8>,
        bind_rows: Vec<Vec<Value>>,
        executions: u32,
        fetch: u32,
        commit: bool,
    ) -> (out: WriteBuf)
        requires
            old(self).session.wf(),
            old(db)@.state.wf(),
        ensures
            final(self).session.wf(),
            final(db)@.state.wf(),
            stated(
                old(self).state(old(db)@),
                (Order {
                    id: cursor_id,
                    sql: sql@,
                    bind_types: bind_types@,
                    rows: vars::value_rows(bind_rows@),
                    executions: executions as int,
                    fetch: fetch as int,
                    commit,
                }),
                final(self).state(final(db)@),
                out@,
            ),
    {
        proof {
            reveal(stated);
        }
        let ghost a = self.state(db@);
        let ghost o = Order {
            id: cursor_id,
            sql: sql@,
            bind_types: bind_types@,
            rows: vars::value_rows(bind_rows@),
            executions: executions as int,
            fetch: fetch as int,
            commit,
        };
        let times: usize = if bind_rows.len() > 0 {
            bind_rows.len()
        } else if executions > 1 {
            executions as usize
        } else {
            1
        };
        assert(times == runs(o));
        let short: u16 = (cursor_id % 65536) as u16;
        let ran = run_all(&mut self.session, db, sql.as_str(), &bind_rows, times);
        let ghost w = World { seat: self.session@, store: db@ };
        assert(self.state(db@) == moved(a, w));
        match ran {
            Err((e, affected)) => {
                let mut out = WriteBuf::new();
                let status: u32 = self.call_status();
                assert(status == status_of(self.state(db@)));
                write_error(&mut out, status, short, affected, Some(&e));
                proof {
                    let b = self.state(db@);
                    assert(out@ =~= message::error_bytes(
                        status_of(b),
                        short_id(o.id),
                        affected as int,
                        Some(e@),
                    ));
                    failing_ends_it(a, o, b, out@, w, e, affected as int);
                }
                out
            },
            Ok((q, affected)) => {
                let ghost answer = q@;
                let ghost trace = choose|trace: Seq<Leg>| #[trigger]
                    traced(world_of(a), o.sql, o.rows, trace) && trace.len() == runs(o)
                        && world_after(world_of(a), trace) == w && trace.last().answer == answer
                        && affected_after(trace) == affected;
                assert(all_ran(world_of(a), o.sql, o.rows, runs(o), w, answer, affected as int));
                assert(traced(world_of(a), o.sql, o.rows, trace));
                if commit {
                    match self.session.commit(db) {
                        Err(e) => {
                            let mut out = WriteBuf::new();
                            write_error(&mut out, 0, short, affected, Some(&e));
                            assert(Seq::<u8>::empty() + out@ =~= out@);
                            assert(self.state(db@) == moved(a, session::commit_due(w).world));
                            assert((self.state(db@), out@) == completed(a, o, trace));
                            return out;
                        },
                        Ok(_) => {
                            assert(self.state(db@) == moved(a, session::commit_due(w).world));
                        },
                    }
                }
                let out = self.close(db, cursor_id, sql, bind_types, q, affected, fetch);
                assert((self.state(db@), out@) == completed(a, o, trace));
                out
            },
        }
    }

    /// The first part of a login: the client is sent a challenge.
    pub fn auth_phase_one(&mut self, db: &Database, r: &mut ReadBuf) -> (x: Result<
        WriteBuf,
        ProtocolError,
    >)
        ensures
            challenged(
                old(self).state(db@),
                old(r)@,
                final(self).state(db@),
                ttc::outcome(x, |w: WriteBuf| w@),
            ),
            final(self).session == old(self).session,
    {
        proof {
            reveal(challenged);
        }
        let ghost a = self.state(db@);
        let login = match request::read_auth(r) {
            Ok(l) => l,
            Err(e) => {
                return Err(e);
            },
        };
        let (challenge, reply) = Challenge::new(self.password.as_str());
        let mut out = WriteBuf::new();
        write_challenge(&mut out, &reply);
        assert(out@ =~= challenge_bytes(reply));
        proof {
            let (salt, csk, key) = choose|salt: Seq<u8>, csk: Seq<u8>, key: Seq<u8>|
                salt.len() == 16 && csk.len() == 16 && key.len() == 32 && challenge@
                    == #[trigger] auth::secrets_of(a.password, salt, csk, key) && auth::announces(
                    reply,
                    challenge@,
                    salt,
                );
            assert(auth::announces(reply, auth::secrets_of(a.password, salt, csk, key), salt));
        }
        self.login = LoginState::Challenged { user: login.user, challenge };
        Ok(out)
    }

    /// The second part of a login: the client proves that it knows the password.
    pub fn auth_phase_two(&mut self, db: &mut Database, r: &mut ReadBuf) -> (x: Result<
        WriteBuf,
        ProtocolError,
    >)
        requires
            old(self).session.wf(),
            old(db)@.state.wf(),
        ensures
            final(self).session.wf(),
            final(db)@.state.wf(),
            admitted(
                old(self).state(old(db)@),
                old(r)@,
                final(self).state(final(db)@),
                ttc::outcome(x, |w: WriteBuf| w@),
            ),
    {
        let ghost a = self.state(db@);
        let ghost start = r@;
        let login = match request::read_auth(r) {
            Ok(l) => l,
            Err(e) => {
                proof {
                    reveal(admitted);
                }
                return Err(e);
            },
        };
        match self.check_login(&login) {
            Ok((user, response)) => {
                let ghost l = login@;
                let service = self.service_name.as_str().to_uppercase();
                let mut out = WriteBuf::new();
                write_welcome(&mut out, response.as_str(), service.as_str());
                assert(out@ =~= welcome_bytes(response@, text::upper(a.service)));
                self.login = LoginState::LoggedIn;
                self.enter(db, &login, user.as_str());
                proof {
                    let secrets = a.stage->secrets;
                    let key = key_of(a, l)->Ok_0;
                    let salt = choose|salt: Seq<u8>|
                        salt.len() == 16 && response@ == #[trigger] auth::response_text(key, salt);
                    admitted_with(
                        a,
                        start,
                        self.state(db@),
                        out@,
                        l,
                        user@,
                        secrets,
                        key,
                        salt,
                    );
                }
                Ok(out)
            },
            Err(None) => {
                proof {
                    reveal(admitted);
                }
                Ok(failed(0, 1017, "invalid credential or not authorized; logon denied"))
            },
            Err(Some(e)) => {
                proof {
                    reveal(admitted);
                }
                Err(e)
            },
        }
    }

    /// Holds what the client sent against its challenge, which is spent: the user
    /// and the server's proof, or why the login fails.
    fn check_login(&mut self, login: &request::Login) -> (x: Result<
        (String, String),
        Option<ProtocolError>,
    >)
        ensures
            *final(self) == (Connection { login: LoginState::Nobody, ..*old(self) }),
            forall|store: Store|
                checks(#[trigger] old(self).state(store), login@, x),
    {
        let key = match login.get("AUTH_SESSKEY") {
            Some(s) => s,
            None => "",
        };
        let word = match login.get("AUTH_PASSWORD") {
            Some(s) => s,
            None => "",
        };
        proof {
            reveal(key_of);
            reveal_strlit("");
            assert(""@ =~= Seq::<char>::empty());
        }
        assert(key@ == sent_under(login@, "AUTH_SESSKEY"@));
        assert(word@ == sent_under(login@, "AUTH_PASSWORD"@));
        let verdict = match &self.login {
            LoginState::Challenged { user, challenge } => Some(
                (user.as_str().to_owned(), challenge.verify(key, word, self.password.as_str())),
            ),
            _ => None,
        };
        self.login = LoginState::Nobody;
        match verdict {
            Some((user, Ok(response))) => Ok((user, response)),
            Some((_, Err(LoginError::InvalidCredentials))) => Err(None),
            Some((_, Err(LoginError::Protocol(m)))) => Err(Some(invalid(m.to_owned()))),
            None => Err(None),
        }
    }

    /// Opens the database session of a user who logged in.
    fn enter(&mut self, db: &mut Database, login: &request::Login, user: &str)
        requires
            old(db)@.state.wf(),
        ensures
            final(self).session.wf(),
            final(db)@.state.wf(),
            final(self).state(final(db)@) == (State {
                seat: final(self).session@,
                store: final(db)@,
                ..old(self).state(old(db)@)
            }),
            entered(
                login@,
                user@,
                old(db)@,
                World { seat: final(self).session@, store: final(db)@ },
            ),
    {
        self.session = Session::new(user);
        let ghost seat = self.session@;
        let ghost store = db@;
        match login.get("AUTH_ALTER_SESSION") {
            Some(sent) => {
                let stmt = trim_zeros(sent);
                let none: Vec<Value> = Vec::new();
                assert(functions::views(none@) =~= Seq::<Datum>::empty());
                let r = execute_once(&mut self.session, db, stmt.as_str(), &none);
                proof {
                    let w = World { seat: self.session@, store: db@ };
                    reveal(tried);
                    match r {
                        Ok(q) => {
                            assert(step(
                                World { seat, store },
                                stmt@,
                                Seq::empty(),
                                w,
                                Ok::<QueryResult, OraError>(q),
                            ));
                        },
                        Err(e) => {
                            assert(step(
                                World { seat, store },
                                stmt@,
                                Seq::empty(),
                                w,
                                Err::<QueryResult, OraError>(e),
                            ));
                        },
                    }
                    entered_with(login@, user@, seat, store, sent@, w);
                }
            },
            None => {
                proof {
                    entered_without(login@, user@, seat, store);
                }
            },
        }
    }

    /// Executes the statement of a request, or that of a cursor.
    pub fn execute(&mut self, db: &mut Database, r: &mut ReadBuf) -> (x: Result<
        WriteBuf,
        ProtocolError,
    >)
        requires
            old(self).session.wf(),
            old(db)@.state.wf(),
        ensures
            final(self).session.wf(),
            final(db)@.state.wf(),
            execution(
                old(self).state(old(db)@),
                old(r)@,
                final(self).state(final(db)@),
                ttc::outcome(x, |w: WriteBuf| w@),
            ),
    {
        proof {
            reveal(execution);
        }
        let tz: i32 = self.session.time_zone_offset();
        let q = match request::read_execute(r, tz) {
            Ok(q) => q,
            Err(e) => {
                return Err(e);
            },
        };
        let (id, sql) = match q.sql {
            Some(sql) => (0u32, sql),
            None => match self.cursors.get(&q.cursor_id) {
                Some(c) => (q.cursor_id, c.sql.as_str().to_owned()),
                None => {
                    let status: u32 = self.call_status();
                    assert(status == status_of(self.state(db@)));
                    return Ok(failed(status, 1001, "invalid cursor"));
                },
            },
        };
        Ok(
            self.run_statement(
                db,
                id,
                sql,
                q.bind_types,
                q.bind_rows,
                q.executions,
                q.fetch,
                q.commit,
            ),
        )
    }

    /// Executes the statement of a cursor again.
    pub fn reexecute(&mut self, db: &mut Database, r: &mut ReadBuf) -> (x: Result<
        WriteBuf,
        ProtocolError,
    >)
        requires
            old(self).session.wf(),
            old(db)@.state.wf(),
        ensures
            final(self).session.wf(),
            final(db)@.state.wf(),
            execution_again(
                old(self).state(old(db)@),
                old(r)@,
                final(self).state(final(db)@),
                ttc::outcome(x, |w: WriteBuf| w@),
            ),
    {
        proof {
            reveal(execution_again);
        }
        let layout: Vec<Field> = vec![Field::Long, Field::Long, Field::Long, Field::Long];
        assert(layout@ =~= four());
        let h = match request::fields(r, &layout) {
            Ok(h) => h,
            Err(e) => {
                return Err(e);
            },
        };
        let ghost n = request::numbers(h@);
        assert(n[0] == h@[0] && n[1] == h@[1] && n[2] == h@[2] && n[3] == h@[3]);
        let tz: i32 = self.session.time_zone_offset();
        let c = match self.cursors.get(&h[0]) {
            Some(c) => c,
            None => {
                let status: u32 = self.call_status();
                assert(status == status_of(self.state(db@)));
                return Ok(failed(status, 1001, "invalid cursor"));
            },
        };
        let sql = c.sql.as_str().to_owned();
        let bind_types = copied(&c.bind_types);
        let executions: u32 = if c.columns.len() == 0 {
            h[1]
        } else {
            1
        };
        let bind_rows = if bind_types.len() > 0 {
            match request::read_bind_rows(r, &bind_types, tz) {
                Ok(v) => v,
                Err(e) => {
                    return Err(e);
                },
            }
        } else {
            let none: Vec<Vec<Value>> = Vec::new();
            assert(vars::value_rows(none@) =~= Seq::<Seq<Datum>>::empty());
            none
        };
        let fetch: u32 = if (h[2] / 0x20) % 2 == 1 {
            h[1]
        } else {
            0
        };
        let commit = h[3] % 2 == 1;
        Ok(self.run_statement(db, h[0], sql, bind_types, bind_rows, executions, fetch, commit))
    }

    /// Serves one call.
    pub fn call(&mut self, db: &mut Database, func: u8, r: &mut ReadBuf) -> (x: Result<
        WriteBuf,
        ProtocolError,
    >)
        requires
            old(self).session.wf(),
            old(db)@.state.wf(),
        ensures
            final(self).session.wf(),
            final(db)@.state.wf(),
            called(
                old(self).state(old(db)@),
                func,
                old(r)@,
                final(self).state(final(db)@),
                ttc::outcome(x, |w: WriteBuf| w@),
            ),
    {
        proof {
            reveal(called);
        }
        let logged_in = match &self.login {
            LoginState::LoggedIn => true,
            _ => false,
        };
        if func == FUNC_AUTH_PHASE_ONE {
            self.auth_phase_one(db, r)
        } else if func == FUNC_AUTH_PHASE_TWO {
            self.auth_phase_two(db, r)
        } else if !logged_in {
            Ok(failed(0, 1012, "not logged on"))
        } else if func == FUNC_EXECUTE {
            self.execute(db, r)
        } else if func == FUNC_REEXECUTE || func == FUNC_REEXECUTE_AND_FETCH {
            self.reexecute(db, r)
        } else {
            self.serve(db, func, r)
        }
    }

    /// Serves a call that runs no statement.
    fn serve(&mut self, db: &mut Database, func: u8, r: &mut ReadBuf) -> (x: Result<
        WriteBuf,
        ProtocolError,
    >)
        requires
            old(self).session.wf(),
            old(db)@.state.wf(),
            old(self).login@ is LoggedIn,
            func != FUNC_AUTH_PHASE_ONE && func != FUNC_AUTH_PHASE_TWO && func != FUNC_EXECUTE
                && func != FUNC_REEXECUTE && func != FUNC_REEXECUTE_AND_FETCH,
        ensures
            final(self).session.wf(),
            final(db)@.state.wf(),
            called(
                old(self).state(old(db)@),
                func,
                old(r)@,
                final(self).state(final(db)@),
                ttc::outcome(x, |w: WriteBuf| w@),
            ),
    {
        proof {
            reveal(called);
        }
        if func == FUNC_FETCH {
            let layout: Vec<Field> = vec![Field::Long, Field::Long];
            assert(layout@ =~= seq![Field::Long, Field::Long]);
            match request::fields(r, &layout) {
                Ok(h) => {
                    let ghost n = request::numbers(h@);
                    assert(n[0] == h@[0] && n[1] == h@[1]);
                    Ok(self.send_rows(db, h[0], h[1]))
                },
                Err(e) => Err(e),
            }
        } else if func == FUNC_COMMIT {
            let r = self.session.commit(db);
            let status: u32 = self.call_status();
            assert(status == status_of(self.state(db@)));
            match r {
                Ok(_) => Ok(told(status)),
                Err(e) => {
                    let mut out = WriteBuf::new();
                    write_error(&mut out, status, 0, 0, Some(&e));
                    assert(Seq::<u8>::empty() + out@ =~= out@);
                    Ok(out)
                },
            }
        } else if func == FUNC_ROLLBACK || func == FUNC_LOGOFF {
            self.session.rollback();
            Ok(told(0))
        } else if func == FUNC_PING {
            let status: u32 = self.call_status();
            assert(status == status_of(self.state(db@)));
            Ok(told(status))
        } else {
            let mut m = "unsupported function ".to_owned();
            text::push_decimal(&mut m, func as u64);
            Err(invalid(m))
        }
    }

    fn close_cursors(&mut self, r: &mut ReadBuf, n: u32) -> (x: Result<(), ProtocolError>)
        ensures
            ({
                let due = closing(old(r)@, open_cursors(old(self).cursors@), n as int);
                &&& due.0 == open_cursors(final(self).cursors@)
                &&& ttc::gave(due.1, ttc::outcome(x, |u: ()| u), final(r)@)
            }),
            *final(self) == (Connection { cursors: final(self).cursors, ..*old(self) }),
    {
        let ghost due = closing(r@, open_cursors(self.cursors@), n as int);
        let mut left: u32 = n;
        while left > 0
            invariant
                due == closing(old(r)@, open_cursors(old(self).cursors@), n as int),
                due == closing(r@, open_cursors(self.cursors@), left as int),
                *self == (Connection { cursors: self.cursors, ..*old(self) }),
            decreases left,
        {
            let ghost had = self.cursors@;
            let id: u32 = match r.ub4() {
                Ok(id) => id,
                Err(e) => {
                    return Err(e);
                },
            };
            self.cursors.remove(&id);
            assert(open_cursors(self.cursors@) =~= open_cursors(had).remove(id));
            left = left - 1;
        }
        Ok(())
    }

    /// Closes the cursors that the client is done with, up to the call that follows:
    /// its code.
    fn open(&mut self, r: &mut ReadBuf) -> (x: Result<u8, ProtocolError>)
        ensures
            ({
                let due = opening(old(r)@, open_cursors(old(self).cursors@));
                &&& due.0 == open_cursors(final(self).cursors@)
                &&& match x {
                    Ok(func) => due.1 == Ok::<(u8, Seq<u8>), Seq<char>>((func, final(r)@)),
                    Err(_) => due.1 is Err,
                }
            }),
            *final(self) == (Connection { cursors: final(self).cursors, ..*old(self) }),
    {
        let ghost due = opening(r@, open_cursors(self.cursors@));
        let head: Vec<Field> = vec![Field::Byte, Field::Byte, Field::Byte];
        let pair: Vec<Field> = vec![Field::Byte, Field::Long];
        assert(head@ =~= three());
        assert(pair@ =~= seq![Field::Byte, Field::Long]);
        loop
            invariant
                head@ == three(),
                pair@ == seq![Field::Byte, Field::Long],
                due == opening(old(r)@, open_cursors(old(self).cursors@)),
                due == opening(r@, open_cursors(self.cursors@)),
                *self == (Connection { cursors: self.cursors, ..*old(self) }),
            decreases r@.len(),
        {
            proof {
                fields_shrink(r@, three());
            }
            let h = match request::fields(r, &head) {
                Ok(h) => h,
                Err(e) => {
                    return Err(e);
                },
            };
            let ghost n = request::numbers(h@);
            assert(n[0] == h@[0] && n[1] == h@[1]);
            if h[0] == MSG_FUNCTION as u32 {
                return Ok((h[1] % 256) as u8);
            }
            if h[0] != MSG_PIGGYBACK as u32 {
                let mut m = "unexpected TTC message type ".to_owned();
                text::push_decimal(&mut m, h[0] as u64);
                return Err(invalid(m));
            }
            if h[1] != FUNC_CLOSE_CURSORS as u32 {
                let mut m = "unsupported piggyback function ".to_owned();
                text::push_decimal(&mut m, h[1] as u64);
                return Err(invalid(m));
            }
            proof {
                fields_shrink(r@, pair@);
            }
            let c = match request::fields(r, &pair) {
                Ok(c) => c,
                Err(e) => {
                    return Err(e);
                },
            };
            let ghost k = request::numbers(c@);
            assert(k[1] == c@[1]);
            proof {
                closing_shrinks(r@, open_cursors(self.cursors@), c@[1] as int);
            }
            match self.close_cursors(r, c[1]) {
                Ok(_) => {},
                Err(e) => {
                    return Err(e);
                },
            }
        }
    }

    /// Serves a request: the reply. One that is malformed, or asks for what is not
    /// supported, is answered with an error, so that the stream stays in step.
    pub fn dispatch(&mut self, db: &mut Database, request: &[u8]) -> (out: WriteBuf)
        requires
            old(self).session.wf(),
            old(db)@.state.wf(),
        ensures
            final(self).session.wf(),
            final(db)@.state.wf(),
            dispatched(
                old(self).state(old(db)@),
                request@,
                final(self).state(final(db)@),
                out@,
            ),
    {
        let first: u8 = if request.len() > 0 {
            request[0]
        } else {
            0
        };
        if first == MSG_PROTOCOL {
            let mut out = WriteBuf::new();
            write_protocol(&mut out);
            assert(out@ =~= message::protocol_bytes());
            return out;
        }
        if first == MSG_DATA_TYPES {
            let reply: Vec<u8> = vec![MSG_DATA_TYPES, 0, 0];
            let mut out = WriteBuf::new();
            out.raw(&reply);
            assert(out@ =~= seq![MSG_DATA_TYPES, 0u8, 0u8]);
            return out;
        }
        let ghost a = self.state(db@);
        if first == MSG_FUNCTION || first == MSG_PIGGYBACK {
            let mut r = ReadBuf::new(request);
            let ghost x = opening(request@, a.cursors);
            match self.open(&mut r) {
                Ok(func) => {
                    let ghost at = self.state(db@);
                    assert(at == (State { cursors: x.0, ..a }));
                    let ghost rest = r@;
                    let done = self.call(db, func, &mut r);
                    match done {
                        Ok(out) => {
                            assert(called(at, func, rest, self.state(db@), Ok(out@)));
                            return out;
                        },
                        Err(e) => {
                            assert(called(at, func, rest, self.state(db@), Err(e@)));
                        },
                    }
                },
                Err(_) => {
                    assert(self.state(db@) == (State { cursors: x.0, ..a }));
                },
            }
        }
        self.refuse(db)
    }

    fn refuse(&self, db: &Database) -> (out: WriteBuf)
        ensures
            out@ == refusal(self.state(db@)),
    {
        let status: u32 = self.call_status();
        assert(status == status_of(self.state(db@)));
        failed(status, 3115, "unsupported network datatype or representation")
    }
}

fn told(status: u32) -> (out: WriteBuf)
    ensures
        out@ == message::status_bytes(status as int),
{
    let mut out = WriteBuf::new();
    write_status(&mut out, status);
    assert(Seq::<u8>::empty() + out@ =~= out@);
    out
}

/// A statement that came with a login was executed in the new session.
proof fn entered_with(
    l: LoginParts,
    user: Seq<char>,
    seat: Seat,
    store: Store,
    stmt: Seq<char>,
    w: World,
)
    requires
        opened(seat, user),
        request::pair_value(l.pairs, "AUTH_ALTER_SESSION"@, l.pairs.len() as int) == Some(stmt),
        tried(World { seat, store }, without_zeros(stmt), w),
    ensures
        entered(l, user, store, w),
{
    reveal(entered);
}

proof fn entered_without(l: LoginParts, user: Seq<char>, seat: Seat, store: Store)
    requires
        opened(seat, user),
        request::pair_value(l.pairs, "AUTH_ALTER_SESSION"@, l.pairs.len() as int) is None,
    ensures
        entered(l, user, store, World { seat, store }),
{
    reveal(entered);
}

/// A right password opens the session.
proof fn admitted_with(
    a: State,
    s: Seq<u8>,
    b: State,
    out: Seq<u8>,
    l: LoginParts,
    user: Seq<char>,
    secrets: Secrets,
    key: Seq<u8>,
    salt: Seq<u8>,
)
    requires
        request::read_login(s).0 == Ok::<LoginParts, Seq<char>>(l),
        a.stage == (Stage::Challenged { user, secrets }),
        key_of(a, l) == Ok::<Seq<u8>, Refusal>(key),
        salt.len() == 16,
        out == welcome_bytes(auth::response_text(key, salt), text::upper(a.service)),
        b == (State { stage: Stage::LoggedIn, seat: b.seat, store: b.store, ..a }),
        entered(l, user, a.store, world_of(b)),
    ensures
        admitted(a, s, b, Ok::<Seq<u8>, Seq<char>>(out)),
{
    assert(welcomed(key, a.service, out));
    reveal(admitted);
}

/// A run that fails ends a statement.
proof fn failing_ends_it(
    a: State,
    o: Order,
    b: State,
    out: Seq<u8>,
    w: World,
    e: OraError,
    affected: int,
)
    requires
        one_failed(world_of(a), o.sql, o.rows, runs(o), w, e, affected),
        b == moved(a, w),
        out == message::error_bytes(status_of(b), short_id(o.id), affected, Some(e@)),
    ensures
        stated(a, o, b, out),
{
    reveal(stated);
    let trace = choose|trace: Seq<Leg>| #[trigger]
        traced(world_of(a), o.sql, o.rows, trace) && trace.len() < runs(o) && step(
            world_after(world_of(a), trace),
            o.sql,
            row_binds(o.rows, trace.len() as int),
            w,
            Err::<QueryResult, OraError>(e),
        ) && affected_after(trace) == affected;
    assert(broke_off(a, o, trace, b, out));
}

/// Whether a connect descriptor names a service: under SERVICE_NAME, else under
/// SID; without either it is the default one.
pub open spec fn names_service(d: Seq<char>, s: Seq<char>) -> bool {
    if holds(d, "SERVICE_NAME"@) {
        stands_under(d, "SERVICE_NAME"@, s)
    } else if holds(d, "SID"@) {
        stands_under(d, "SID"@, s)
    } else {
        s == "FREEPDB1"@
    }
}

pub open spec fn holds(d: Seq<char>, key: Seq<char>) -> bool {
    exists|i: int, end: int| tns::value_between(d, key, i, end)
}

pub open spec fn stands_under(d: Seq<char>, key: Seq<char>, s: Seq<char>) -> bool {
    exists|i: int, end: int| #[trigger]
        tns::value_between(d, key, i, end) && s == d.subrange(i + 2 + key.len(), end)
}

/// A number moved into a range.
pub open spec fn clamped(v: int, low: int, high: int) -> int {
    if v < low {
        low
    } else if v > high {
        high
    } else {
        v
    }
}

fn clamp(v: u32, low: u32, high: u32) -> (r: u32)
    ensures
        r == clamped(v as int, low as int, high as int),
{
    if v < low {
        low
    } else if v > high {
        high
    } else {
        v
    }
}

/// The answer to a request to connect: the body of a packet.
pub enum Greeting {
    Refuse { body: Vec<u8> },
    Accept { service: String, sdu: u32, body: Vec<u8> },
}

/// Answers a request to connect, with the connect data that came with it or behind
/// it. A client that is too old for large packets is refused.
pub fn greet(c: &ConnectRequest, data: &[u8]) -> (g: Greeting)
    ensures
        match g {
            Greeting::Refuse { body } => c.version < tns::MIN_VERSION && body@ == tns::refuse_layout(
                12520,
            ),
            Greeting::Accept { service, sdu, body } => c.version >= tns::MIN_VERSION
                && names_service(request::lossy(data@), service@) && sdu == clamped(
                c.sdu as int,
                512,
                2097152,
            ) && body@ == tns::accept_layout(
                sdu as nat,
                clamped(c.tdu as int, 255, 2097152) as nat,
            ),
        },
{
    if c.version < tns::MIN_VERSION {
        return Greeting::Refuse { body: tns::refuse_body(12520) };
    }
    let descriptor = request::lossy_text(data);
    let service = match tns::descriptor_value(descriptor.as_str(), "SERVICE_NAME") {
        Some(s) => s,
        None => match tns::descriptor_value(descriptor.as_str(), "SID") {
            Some(s) => s,
            None => "FREEPDB1".to_owned(),
        },
    };
    let sdu: u32 = clamp(c.sdu, 512, 2097152);
    let tdu: u32 = clamp(c.tdu, 255, 2097152);
    Greeting::Accept { service, sdu, body: tns::accept_body(sdu, tdu) }
}

/// How far a request has come with a packet.
#[derive(Clone, Copy, Debug, PartialEq, Eq, Structural)]
pub enum Progress {
    /// More packets follow.
    More,
    /// The request is complete.
    Complete,
    /// The client has gone.
    Gone,
}

/// What a packet makes of a request that has come so far.
pub open spec fn gathered(had: Seq<u8>, kind: u8, body: Seq<u8>) -> (
    Seq<u8>,
    Result<Progress, Seq<char>>,
) {
    if kind == tns::DATA {
        let flags = ttc::be_value(body.take(2)) as int;
        if request::has_bit(flags, tns::DATA_FLAG_EOF as u32) {
            (had, Ok(Progress::Gone))
        } else if request::has_bit(flags, tns::DATA_FLAG_END_OF_REQUEST as u32) {
            (had + body.skip(2), Ok(Progress::Complete))
        } else {
            (had + body.skip(2), Ok(Progress::More))
        }
    } else if kind == tns::MARKER || kind == tns::CONTROL {
        (had, Ok(Progress::More))
    } else {
        (had, Err("unexpected packet type "@ + text::decimal(kind as nat)))
    }
}

/// Puts what a packet brings behind the request's earlier packets.
pub fn gather(request: &mut Vec<u8>, p: &Packet) -> (r: Result<Progress, ProtocolError>)
    requires
        p.kind == tns::DATA ==> p.body@.len() >= 2,
    ensures
        gathered(old(request)@, p.kind, p.body@) == (
            final(request)@,
            ttc::outcome(r, |x: Progress| x),
        ),
{
    if p.kind == tns::DATA {
        let flags: u16 = p.data_flags();
        if (flags / tns::DATA_FLAG_EOF) % 2 == 1 {
            return Ok(Progress::Gone);
        }
        request.extend_from_slice(p.data());
        assert(request@ =~= old(request)@ + p.body@.skip(2));
        if (flags / tns::DATA_FLAG_END_OF_REQUEST) % 2 == 1 {
            Ok(Progress::Complete)
        } else {
            Ok(Progress::More)
        }
    } else if p.kind == tns::MARKER || p.kind == tns::CONTROL {
        Ok(Progress::More)
    } else {
        let mut m = "unexpected packet type ".to_owned();
        text::push_decimal(&mut m, p.kind as u64);
        Err(invalid(m))
    }
}

/// Nobody runs a statement without logging in: before that a call to execute leaves
/// the session and the database as they are and is answered with ORA-01012.
pub proof fn nothing_runs_before_a_login(
    a: State,
    s: Seq<u8>,
    b: State,
    out: Result<Seq<u8>, Seq<char>>,
)
    requires
        !(a.stage is LoggedIn),
        called(a, FUNC_EXECUTE, s, b, out),
    ensures
        b == a,
        out == Ok::<Seq<u8>, Seq<char>>(
            message::error_bytes(0, 0, 0, Some(error::failure(1012, "not logged on"@))),
        ),
{
    reveal(called);
}

/// A request that is malformed changes neither the session nor the database.
pub proof fn a_malformed_request_changes_nothing(a: State, s: Seq<u8>, b: State, reply: Seq<u8>)
    requires
        dispatched(a, s, b, reply),
        opening(s, a.cursors).1 is Err,
    ensures
        world_of(b) == world_of(a),
        b.stage == a.stage,
{
}

/// Rows that are sent in two parts are those that are sent at once: nothing is
/// lost or sent twice between two fetches.
pub proof fn fetching_in_parts(a: State, id: u32, m: int, n: int)
    requires
        m >= 0,
        n >= 0,
    ensures
        rows_sent(rows_sent(a, id, m).0, id, n).0 == rows_sent(a, id, m + n).0,
{
    if a.cursors.contains_key(id) {
        let c = a.cursors[id];
        let k = message::shorter(m, c.pending.len() as int);
        let b = rows_sent(a, id, m).0;
        let d = b.cursors[id];
        let j = message::shorter(n, d.pending.len() as int);
        assert(d.pending == c.pending.skip(k));
        assert(d.pending.skip(j) =~= c.pending.skip(k + j));
        assert(rows_sent(b, id, n).0.cursors =~= rows_sent(a, id, m + n).0.cursors);
    }
}

} // verus!
