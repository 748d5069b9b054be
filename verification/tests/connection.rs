use aes::cipher::block_padding::NoPadding;
use aes::cipher::{BlockDecryptMut, BlockEncryptMut, KeyIvInit};
use mock_oracle::ast::{ColumnDef, CreateTable, Statement};
use mock_oracle::ddl::Database;
use mock_oracle::parser::Parsed;
use mock_oracle::server::link::{gather, greet, Connection, Greeting, Progress};
use mock_oracle::server::request::{read_bind_row, read_execute};
use mock_oracle::server::tns::{ConnectRequest, Packet, CONTROL, DATA};
use mock_oracle::server::ttc::{ReadBuf, WriteBuf};
use mock_oracle::server::{Config, DEFAULT_PASSWORD};
use mock_oracle::number::Number;
use mock_oracle::value::{SqlType, Value};
use sha2::{Digest, Sha512};

fn cbc_seal(key: &[u8; 32], data: &[u8]) -> Vec<u8> {
    cbc::Encryptor::<aes::Aes256>::new(key.into(), &[0u8; 16].into()).encrypt_padded_vec_mut::<NoPadding>(data)
}

fn cbc_open(key: &[u8; 32], data: &[u8]) -> Vec<u8> {
    cbc::Decryptor::<aes::Aes256>::new(key.into(), &[0u8; 16].into()).decrypt_padded_vec_mut::<NoPadding>(data).unwrap()
}

fn header(func: u8) -> WriteBuf {
    let mut w = WriteBuf::new();
    w.raw(&[3, func, 1]);
    w
}

fn login_request(func: u8, pairs: &[(&str, &str)]) -> Vec<u8> {
    let mut w = header(func);
    w.u8(1);
    w.ub4(4);
    w.ub4(0x100);
    w.u8(1);
    w.ub4(pairs.len() as u32);
    w.raw(&[1, 1]);
    w.bytes_with_length(b"test");
    for (k, v) in pairs {
        w.key_value(k, v, 0);
    }
    w.buf
}

/// The pairs of a reply to a login message.
fn reply_pairs(reply: &[u8]) -> Vec<(String, String)> {
    let mut r = ReadBuf::new(reply);
    assert_eq!(r.u8().unwrap(), 8);
    let n = r.ub2().unwrap();
    (0..n)
        .map(|_| {
            let (k, v, _) = r.key_value().unwrap();
            (k, v)
        })
        .collect()
}

fn find(pairs: &[(String, String)], key: &str) -> String {
    pairs.iter().find(|p| p.0 == key).unwrap().1.clone()
}

fn log_in(c: &mut Connection, db: &mut Database, password: &str) -> Vec<u8> {
    let reply = c.dispatch(db, &login_request(118, &[("AUTH_TERMINAL", "t")]));
    let pairs = reply_pairs(&reply.buf);
    let vfr = hex::decode(find(&pairs, "AUTH_VFR_DATA")).unwrap();
    let mut salt = vfr.clone();
    salt.extend_from_slice(b"AUTH_PBKDF2_SPEEDY_KEY");
    let mut password_key = [0u8; 64];
    pbkdf2::pbkdf2_hmac::<Sha512>(password.as_bytes(), &salt, 4096, &mut password_key);
    let mut h = Sha512::new();
    h.update(password_key);
    h.update(&vfr);
    let hash: [u8; 32] = h.finalize()[..32].try_into().unwrap();
    let server_key = cbc_open(&hash, &hex::decode(find(&pairs, "AUTH_SESSKEY")).unwrap());
    let client_key = [9u8; 32];
    let sesskey = hex::encode_upper(cbc_seal(&hash, &client_key));
    let mut mixed = client_key.to_vec();
    mixed.extend_from_slice(&server_key);
    let mut combo = [0u8; 32];
    pbkdf2::pbkdf2_hmac::<Sha512>(
        hex::encode_upper(mixed).as_bytes(),
        &hex::decode(find(&pairs, "AUTH_PBKDF2_CSK_SALT")).unwrap(),
        3,
        &mut combo,
    );
    let mut plain = vec![1u8; 16];
    plain.extend_from_slice(password.as_bytes());
    let n = 16 - plain.len() % 16;
    plain.extend(std::iter::repeat(n as u8).take(n));
    let secret = hex::encode_upper(cbc_seal(&combo, &plain));
    c.dispatch(
        db,
        &login_request(
            115,
            &[
                ("AUTH_SESSKEY", &sesskey),
                ("AUTH_PASSWORD", &secret),
                ("AUTH_ALTER_SESSION", "ALTER SESSION SET TIME_ZONE='+02:00'\0"),
            ],
        ),
    )
    .buf
}

/// An execute request; `options` as on the wire.
fn execute_request(options: u32, cursor: u32, sql: Option<&str>, rows: u32, binds: u32) -> WriteBuf {
    let mut w = header(94);
    w.ub4(options);
    w.ub4(cursor);
    w.u8(sql.is_some() as u8);
    w.ub4(0);
    w.u8(1);
    w.ub4(13);
    w.raw(&[0, 0, 0]);
    w.ub4(rows);
    w.ub4(0);
    w.u8(1);
    w.ub4(binds);
    w.raw(&[0, 0, 0, 0, 0, 0]);
    w.ub4(0);
    w.ub4(0);
    w.raw(&[0, 0, 0]);
    w.ub4(0);
    w.u8(0);
    w.ub4(0);
    w.ub4(0);
    w.u8(0);
    w.ub4(0);
    w.u8(0);
    w.u8(0);
    w.ub4(0);
    w.u8(0);
    w.ub4(0);
    w.raw(&[0, 0]);
    w.ub4(0);
    if let Some(sql) = sql {
        w.bytes_with_length(sql.as_bytes());
    }
    for i in 0..13 {
        w.ub4(if i == 1 { 1 } else { 0 });
    }
    w
}

fn bind_type(w: &mut WriteBuf, t: u8) {
    w.raw(&[t, 0, 0, 0]);
    w.ub4(100);
    w.ub4(0);
    w.ub4(0);
    w.ub4(0);
    w.ub2(0);
    w.ub2(873);
    w.u8(1);
    w.ub4(0);
    w.ub4(0);
}

/// The error number of the message that a reply ends in, from the message's start.
fn error_at(reply: &[u8], at: usize) -> (u32, u64) {
    let mut r = ReadBuf::new(&reply[at..]);
    assert_eq!(r.u8().unwrap(), 4);
    r.ub4().unwrap();
    r.ub2().unwrap();
    r.ub4().unwrap();
    for _ in 0..4 {
        r.ub2().unwrap();
    }
    r.ub2().unwrap();
    r.bytes(6).unwrap();
    r.ub4().unwrap();
    r.ub2().unwrap();
    r.u8().unwrap();
    r.ub4().unwrap();
    r.ub2().unwrap();
    r.ub4().unwrap();
    r.bytes(2).unwrap();
    r.ub2().unwrap();
    r.ub4().unwrap();
    r.ub4().unwrap();
    r.ub2().unwrap();
    r.ub4().unwrap();
    r.ub2().unwrap();
    let code = r.ub4().unwrap();
    (code, r.ub4().unwrap() as u64)
}

fn connected() -> (Connection, Database) {
    let mut db = Database::new();
    let mut c = Connection::new("oracle".into(), "freepdb1".into());
    let reply = log_in(&mut c, &mut db, "oracle");
    let pairs = reply_pairs(&reply);
    assert_eq!(find(&pairs, "AUTH_DBNAME"), "FREEPDB1");
    assert_eq!(find(&pairs, "AUTH_VERSION_NO"), "318767104");
    assert_eq!(pairs.len(), 12);
    (c, db)
}

const NUMBER: SqlType = SqlType::Number { precision: 0, scale: 0 };

/// Creates a table; a column whose name ends in `!` is an identity column.
fn create(db: &mut Database, name: &str, columns: &[(&str, SqlType)]) {
    let columns = columns
        .iter()
        .map(|(name, sql_type)| ColumnDef {
            name: name.trim_end_matches('!').into(),
            sql_type: *sql_type,
            default: None,
            not_null: false,
            identity: name.ends_with('!'),
        })
        .collect();
    let table = CreateTable { name: name.into(), columns, constraints: Vec::new(), as_query: None };
    let parsed = Parsed { stmt: Statement::CreateTable(table), binds: 0 };
    let mut session = db.session("MOCK");
    session.execute_parsed(db, &parsed, &Vec::new()).ok().unwrap();
}

#[test]
fn the_default_password_is_oracle() {
    assert_eq!(Config::default().password, DEFAULT_PASSWORD);
    assert_eq!(DEFAULT_PASSWORD, "oracle");
}

#[test]
fn calls_before_a_login_are_refused() {
    let mut db = Database::new();
    let mut c = Connection::new("oracle".into(), "x".into());
    let reply = c.dispatch(&mut db, &header(147).buf);
    assert_eq!(error_at(&reply.buf, 0).0, 1012);
    assert!(reply.buf.ends_with(b"ORA-01012: not logged on\n"));
}

#[test]
fn a_wrong_password_is_refused_and_spends_the_challenge() {
    let mut db = Database::new();
    let mut c = Connection::new("oracle".into(), "x".into());
    let reply = log_in(&mut c, &mut db, "wrong");
    assert_eq!(error_at(&reply, 0).0, 1017);
    let again = c.dispatch(&mut db, &login_request(115, &[]));
    assert_eq!(error_at(&again.buf, 0).0, 1017);
}

#[test]
fn malformed_requests_are_answered() {
    let mut db = Database::new();
    let mut c = Connection::new("oracle".into(), "x".into());
    for request in [&[0u8; 0][..], &[99u8][..], &[3u8][..], &[3u8, 118][..], &[17u8, 1, 1][..]] {
        let reply = c.dispatch(&mut db, request);
        assert_eq!(error_at(&reply.buf, 0).0, 3115);
    }
    assert_eq!(c.dispatch(&mut db, &[2]).buf, [2, 0, 0]);
    assert!(c.dispatch(&mut db, &[1]).buf.starts_with(b"\x01\x06\x00mock-oracle\0"));
}

#[test]
fn a_query_is_described_and_fetched_in_parts() {
    let (mut c, mut db) = connected();
    create(&mut db, "T", &[("A", NUMBER)]);
    db.run_script("insert into t values (1); insert into t values (2); insert into t values (3)").unwrap();
    let reply = c.dispatch(&mut db, &execute_request(0x40, 0, Some("select a from t"), 1, 0).buf);
    assert_eq!(reply.buf[0], 16);
    assert_eq!(c.cursors[&1].fetched, 1);
    let mut fetch = header(5);
    fetch.ub4(1);
    fetch.ub4(5);
    let reply = c.dispatch(&mut db, &fetch.buf);
    assert_eq!(&reply.buf[..9], &[6, 0, 0, 0, 1, 2, 0, 0, 0]);
    assert_eq!(&reply.buf[9..13], &[7, 2, 193, 3]);
    assert_eq!(&reply.buf[13..17], &[7, 2, 193, 4]);
    assert_eq!(error_at(&reply.buf, 17), (1403, 3));
    let mut fetch = header(5);
    fetch.ub4(9);
    fetch.ub4(5);
    assert_eq!(error_at(&c.dispatch(&mut db, &fetch.buf).buf, 0).0, 1001);
}

#[test]
fn binds_come_in_rows_and_changes_wait_for_a_commit() {
    let (mut c, mut db) = connected();
    create(&mut db, "T", &[("A", NUMBER), ("B", SqlType::Varchar2(10))]);
    let mut w = execute_request(0x08, 0, Some("insert into t values (:1, :2)"), 1, 2);
    bind_type(&mut w, 2);
    bind_type(&mut w, 1);
    for (n, s) in [(&[193u8, 6][..], "x"), (&[193u8, 7][..], "y")] {
        w.u8(7);
        w.bytes_with_length(n);
        w.bytes_with_length(s.as_bytes());
    }
    let reply = c.dispatch(&mut db, &w.buf);
    assert_eq!(error_at(&reply.buf, 0), (0, 2));
    assert_eq!(c.call_status(), 2);
    assert_eq!(db.execute("select a, b from t").ok().unwrap().rows.len(), 0);
    let reply = c.dispatch(&mut db, &header(14).buf);
    assert_eq!(reply.buf, [9, 0, 0]);
    let rows = db.execute("select a, b from t").ok().unwrap().rows;
    assert_eq!(rows[1], vec![Value::Number(Number::parse("6").unwrap()), Value::varchar("y")]);
    let mut again = header(4);
    again.ub4(1);
    again.ub4(1);
    again.ub4(0);
    again.ub4(1);
    again.u8(7);
    again.bytes_with_length(&[193, 8]);
    again.bytes_with_length(b"z");
    let reply = c.dispatch(&mut db, &again.buf);
    assert_eq!(error_at(&reply.buf, 0), (0, 1));
    assert_eq!(c.call_status(), 0);
    assert_eq!(db.execute("select a from t").ok().unwrap().rows.len(), 3);
}

#[test]
fn a_rollback_undoes_and_closed_cursors_are_gone() {
    let (mut c, mut db) = connected();
    create(&mut db, "T", &[("A", NUMBER)]);
    c.dispatch(&mut db, &execute_request(0, 0, Some("insert into t values (1)"), 1, 0).buf);
    assert_eq!(c.call_status(), 2);
    assert_eq!(c.dispatch(&mut db, &header(15).buf).buf, [9, 0, 0]);
    assert_eq!(c.call_status(), 0);
    let mut w = WriteBuf::new();
    w.raw(&[17, 105, 1, 1]);
    w.ub4(1);
    w.ub4(1);
    w.raw(&[3, 147, 1]);
    assert_eq!(c.dispatch(&mut db, &w.buf).buf, [9, 0, 0]);
    assert!(c.cursors.is_empty());
    let reply = c.dispatch(&mut db, &execute_request(0, 1, None, 1, 0).buf);
    assert_eq!(error_at(&reply.buf, 0).0, 1001);
}

#[test]
fn the_login_sets_the_time_zone() {
    let (c, _) = connected();
    assert_eq!(c.session.time_zone_offset(), 120);
}

#[test]
fn binds_of_every_type_are_read() {
    let date = [120u8, 124, 2, 29, 13, 31, 1];
    let mut w = WriteBuf::new();
    w.u8(7);
    w.bytes_with_length(b"a\xffb");
    w.u8(0);
    w.bytes_with_length(&[193, 2]);
    w.bytes_with_length(&date);
    w.bytes_with_length(&date);
    let row = read_bind_row(&mut ReadBuf::new(&w.buf), &[1, 96, 3, 12, 231], 90).unwrap();
    assert_eq!(row[0], Value::varchar("a\u{fffd}b"));
    assert_eq!(row[1], Value::Null);
    assert_eq!(row[2], Value::Number(Number::parse("1").unwrap()));
    let at = |h, m| Value::Date(mock_oracle::datetime::DateTime::new(2024, 2, 29, h, m, 0, 0).unwrap());
    assert_eq!(row[3], at(12, 30));
    assert_eq!(row[4], at(14, 0));
    let e = read_bind_row(&mut ReadBuf::new(&[7, 1, 1]), &[77], 0).unwrap_err();
    assert_eq!(e.message, "binding type 77 is not supported yet");
    assert_eq!(read_bind_row(&mut ReadBuf::new(&[8]), &[1], 0).unwrap_err().message, "expected bind row");
}

#[test]
fn execute_requests_are_read() {
    let w = execute_request(0x140, 5, Some("select 1 from dual"), 7, 0);
    let q = read_execute(&mut ReadBuf::new(&w.buf[3..]), 0).ok().unwrap();
    assert_eq!((q.cursor_id, q.executions, q.fetch, q.commit), (5, 1, 7, true));
    assert_eq!(q.sql.unwrap(), "select 1 from dual");
    let w = execute_request(0, 5, None, 7, 0);
    let q = read_execute(&mut ReadBuf::new(&w.buf[3..]), 0).ok().unwrap();
    assert!(q.sql.is_none() && q.fetch == 0 && !q.commit);
}

#[test]
fn clients_are_greeted_by_version() {
    let mut c = ConnectRequest { version: 318, sdu: 100, tdu: 9_000_000, data_len: 0, data: Vec::new() };
    match greet(&c, b"(CONNECT_DATA=(SID=orcl))") {
        Greeting::Accept { service, sdu, .. } => {
            assert_eq!(service, "orcl");
            assert_eq!(sdu, 512);
        }
        Greeting::Refuse { .. } => panic!("refused"),
    }
    match greet(&c, b"nothing") {
        Greeting::Accept { service, .. } => assert_eq!(service, "FREEPDB1"),
        Greeting::Refuse { .. } => panic!("refused"),
    }
    c.version = 314;
    assert!(matches!(greet(&c, b""), Greeting::Refuse { .. }));
}

#[test]
fn requests_are_gathered_from_packets() {
    let mut request = Vec::new();
    let p = |kind, body: &[u8]| Packet { kind, body: body.to_vec() };
    assert_eq!(gather(&mut request, &p(DATA, &[0, 0, 1, 2])).unwrap(), Progress::More);
    assert_eq!(gather(&mut request, &p(CONTROL, &[])).unwrap(), Progress::More);
    assert_eq!(gather(&mut request, &p(DATA, &[8, 0, 3])).unwrap(), Progress::Complete);
    assert_eq!(request, [1, 2, 3]);
    assert_eq!(gather(&mut request, &p(DATA, &[0, 0x40])).unwrap(), Progress::Gone);
    assert_eq!(gather(&mut request, &p(77, &[])).unwrap_err().message, "unexpected packet type 77");
}

#[test]
fn a_snapshot_brings_tables_back() {
    let mut db = Database::new();
    create(&mut db, "T", &[("A!", NUMBER), ("B", NUMBER)]);
    db.run_script("insert into t (b) values (5)").unwrap();
    let s = db.snapshot();
    db.run_script("insert into t (b) values (6); delete from t").unwrap();
    db.restore(&s);
    assert_eq!(db.execute("select a, b from t").ok().unwrap().rows.len(), 1);
    db.run_script("insert into t (b) values (7)").unwrap();
    let rows = db.execute("select a from t where b = 7").ok().unwrap().rows;
    assert_eq!(rows, vec![vec![Value::Number(Number::parse("2").unwrap())]]);
    db.reset();
    assert_eq!(db.execute("select a from t").err().unwrap().code, 942);
}

#[test]
fn a_script_stops_at_its_first_error() {
    let mut db = Database::new();
    create(&mut db, "Y", &[("A", NUMBER)]);
    let e = db.run_script("insert into y values (1); insert into y values ('q'); drop table y").unwrap_err();
    assert_eq!(e.code, 1722);
    assert_eq!(db.execute("select a from y").ok().unwrap().rows.len(), 1);
}
