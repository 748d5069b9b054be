use mock_oracle::ddl::Database;
use mock_oracle::engine::{OutBind, QueryResult};
use mock_oracle::error::OraError;
use mock_oracle::session::Session;
use mock_oracle::value::{SqlType, Value};

fn n(x: i64) -> Value {
    Value::number(x)
}

fn t(x: &str) -> Value {
    Value::varchar(x)
}

fn dec(x: &str) -> Value {
    Value::parse_number(x).unwrap()
}

fn make(script: &str) -> Database {
    let mut db = Database::new();
    if let Err(e) = db.run_script(script) {
        panic!("{}", e.to_string());
    }
    db
}

fn go(db: &mut Database, sql: &str) -> QueryResult {
    match db.execute(sql) {
        Ok(r) => r,
        Err(e) => panic!("{sql}: {}", e.to_string()),
    }
}

fn code(db: &mut Database, sql: &str) -> u32 {
    match db.execute(sql) {
        Ok(_) => panic!("{sql} should fail"),
        Err(e) => e.code,
    }
}

fn one(db: &mut Database, sql: &str) -> Value {
    let r = go(db, sql);
    assert_eq!(r.rows.len(), 1, "{sql}");
    r.rows[0][0].clone()
}

fn run(s: &mut Session, db: &mut Database, sql: &str, binds: &[Value]) -> QueryResult {
    match s.execute(db, sql, &binds.to_vec()) {
        Ok(r) => r,
        Err(e) => panic!("{sql}: {}", e.to_string()),
    }
}

fn fail(s: &mut Session, db: &mut Database, sql: &str, binds: &[Value]) -> OraError {
    match s.execute(db, sql, &binds.to_vec()) {
        Ok(_) => panic!("{sql} should fail"),
        Err(e) => e,
    }
}

fn count(s: &mut Session, db: &mut Database, table: &str) -> Value {
    run(s, db, &format!("select count(*) from {table}"), &[]).rows[0][0].clone()
}

/// Runs a block and returns its bind values afterwards.
fn block(s: &mut Session, db: &mut Database, sql: &str, binds: &[Value]) -> Vec<Value> {
    run(s, db, sql, binds)
        .out_binds
        .into_iter()
        .map(|b| match b {
            OutBind::Value(v) => v,
            _ => panic!("{sql}: not a value"),
        })
        .collect()
}

fn company() -> Database {
    make(
        "
        create table dept (id number(4) primary key, name varchar2(30) not null unique);
        create table emp (
            id number(6) constraint emp_pk primary key,
            name varchar2(40) not null,
            dept_id number(4) references dept(id),
            salary number(8,2) check (salary > 0),
            hired date,
            manager_id number(6)
        );
        insert into dept values (10, 'Sales');
        insert into dept values (20, 'Engineering');
        insert into dept values (30, 'Empty');
        insert into emp values (1, 'Ada', 20, 9000, date '2020-01-15', null);
        insert into emp values (2, 'Bob', 10, 5000, date '2021-06-01', 1);
        insert into emp values (3, 'Cy', 20, 7000.5, date '2019-03-10', 1);
        insert into emp values (4, 'Dee', null, 3000, null, 2);
        ",
    )
}

#[test]
fn updates_and_deletes_count_their_rows() {
    let mut db = company();
    assert_eq!(go(&mut db, "update emp set salary = salary * 2 where dept_id = 20").rows_affected, 2);
    assert_eq!(one(&mut db, "select salary from emp where id = 1"), n(18000));
    assert_eq!(one(&mut db, "select salary from emp where id = 3"), n(14001));
    assert_eq!(one(&mut db, "select salary from emp where id = 2"), n(5000));
    assert_eq!(go(&mut db, "delete from emp where salary < 6000").rows_affected, 2);
    assert_eq!(go(&mut db, "delete from emp where 1 = 0").rows_affected, 0);
    assert_eq!(go(&mut db, "truncate table emp").rows_affected, 0);
    assert_eq!(one(&mut db, "select count(*) from emp"), n(0));
    go(&mut db, "drop table emp");
    assert_eq!(code(&mut db, "select * from emp"), 942);
    assert_eq!(code(&mut db, "drop table emp"), 942);
}

#[test]
fn changes_are_private_until_they_are_committed() {
    let mut db = company();
    let mut a = db.session("app");
    let mut b = db.session("app");
    run(&mut a, &mut db, "insert into dept values (40, 'Ops')", &[]);
    assert!(a.in_transaction());
    assert_eq!(count(&mut a, &mut db, "dept"), n(4));
    assert_eq!(count(&mut b, &mut db, "dept"), n(3));
    a.rollback();
    assert_eq!(count(&mut a, &mut db, "dept"), n(3));
    run(&mut a, &mut db, "insert into dept values (40, 'Ops')", &[]);
    run(&mut a, &mut db, "commit", &[]);
    assert!(!a.in_transaction());
    assert_eq!(count(&mut b, &mut db, "dept"), n(4));
}

#[test]
fn transactions_on_different_rows_both_commit() {
    let mut db = company();
    go(&mut db, "insert into dept values (40, 'Ops')");
    let mut a = db.session("app");
    let mut b = db.session("app");
    run(&mut a, &mut db, "update dept set name = 'Ops2' where id = 40", &[]);
    run(&mut b, &mut db, "delete from dept where id = 30", &[]);
    b.commit(&mut db).unwrap();
    a.commit(&mut db).unwrap();
    assert_eq!(
        go(&mut db, "select id, name from dept").rows,
        vec![vec![n(10), t("Sales")], vec![n(20), t("Engineering")], vec![n(40), t("Ops2")]]
    );
    // Of two inserts of one key the second commit fails and is rolled back.
    run(&mut a, &mut db, "insert into dept values (50, 'X')", &[]);
    run(&mut b, &mut db, "insert into dept values (50, 'Y')", &[]);
    a.commit(&mut db).unwrap();
    assert_eq!(b.commit(&mut db).unwrap_err().code, 1);
    assert_eq!(one(&mut db, "select name from dept where id = 50"), t("X"));
    // DDL commits the open transaction.
    run(&mut a, &mut db, "insert into dept values (60, 'Z')", &[]);
    run(&mut a, &mut db, "create table other (x number)", &[]);
    a.rollback();
    assert_eq!(count(&mut b, &mut db, "dept"), n(5));
    // A session that ends rolls back.
    {
        let mut c = db.session("app");
        run(&mut c, &mut db, "delete from dept", &[]);
    }
    assert_eq!(count(&mut b, &mut db, "dept"), n(5));
}

#[test]
fn failed_statements_keep_nothing() {
    let mut db = company();
    let mut a = db.session("app");
    run(&mut a, &mut db, "insert into dept values (40, 'Ops')", &[]);
    assert_eq!(fail(&mut a, &mut db, "update dept set name = 'Same'", &[]).code, 1);
    assert_eq!(
        run(&mut a, &mut db, "select name from dept", &[]).rows,
        vec![vec![t("Sales")], vec![t("Engineering")], vec![t("Empty")], vec![t("Ops")]]
    );
    assert_eq!(fail(&mut a, &mut db, "insert into dept select id + 100, 'X' from dept", &[]).code, 1);
    assert_eq!(count(&mut a, &mut db, "dept"), n(4));
    a.rollback();
    // DML that changes nothing does not pin the session to what it saw.
    let mut b = db.session("app");
    run(&mut a, &mut db, "delete from dept where 1 = 0", &[]);
    assert!(!a.in_transaction());
    run(&mut b, &mut db, "create table later (x number)", &[]);
    run(&mut b, &mut db, "insert into dept values (50, 'New')", &[]);
    b.commit(&mut db).unwrap();
    assert_eq!(count(&mut a, &mut db, "later"), n(0));
    assert_eq!(count(&mut a, &mut db, "dept"), n(4));
}

#[test]
fn identity_columns_and_defaults() {
    let mut db = make(
        "create table t (
            id number generated by default on null as identity,
            label varchar2(10) default 'none',
            created date default sysdate not null
         );
         insert into t (label) values ('a');
         insert into t (id, label) values (null, 'b');
         insert into t (id) values (100);",
    );
    assert_eq!(
        go(&mut db, "select id, label from t").rows,
        vec![vec![n(1), t("a")], vec![n(2), t("b")], vec![n(100), t("none")]]
    );
    let snap = db.snapshot();
    go(&mut db, "insert into t (label) values ('c')");
    db.restore(&snap);
    go(&mut db, "insert into t (label) values ('c')");
    assert_eq!(one(&mut db, "select id from t where label = 'c'"), n(3));
}

#[test]
fn tables_from_queries() {
    let mut db = make(
        "create table t (id number, label varchar2(10));
         insert into t values (1, 'a');
         insert into t values (2, 'b');
         insert into t values (3, 'c');
         insert into t values (100, 'none');",
    );
    go(&mut db, "create table t2 as select id, label, 'x' tag from t where id < 100");
    let r = go(&mut db, "select * from t2");
    assert_eq!(r.rows.len(), 3);
    assert_eq!(r.columns[2].name, "TAG");
    assert_eq!(r.columns[2].sql_type, SqlType::Varchar2(1));
    go(&mut db, "insert into t2 select id + 10, label, tag from t2");
    assert_eq!(one(&mut db, "select count(*) from t2"), n(6));
}

#[test]
fn a_column_of_a_query_is_as_wide_as_its_widest_row() {
    let mut db = make(
        "create table t (id number, label varchar2(10));
         insert into t values (1, null);
         insert into t values (2, 'a');
         insert into t values (3, 'abc');
         insert into t values (4, 'ab');",
    );
    let r = go(&mut db, "select label || '!' from t");
    assert_eq!(r.columns[0].sql_type, SqlType::Varchar2(4));
    go(&mut db, "create table w as select label || '!' x from t");
    assert_eq!(one(&mut db, "select x from w where x = 'abc!'"), t("abc!"));
    assert_eq!(code(&mut db, "insert into w values ('abcde')"), 12899);
}

#[test]
fn blocks_read_and_change_tables() {
    let mut db = make(
        "create table emp (id number primary key, name varchar2(20), salary number(8,2));
         insert into emp values (1, 'Ada', 100);
         insert into emp values (2, 'Bob', 200);
         insert into emp values (3, 'Cy', 300);",
    );
    let mut s = db.session("U");
    let out = block(
        &mut s,
        &mut db,
        "declare
            total number := 0;
            i pls_integer;
         begin
            for r in (select salary from emp) loop
                total := total + r.salary;
            end loop;
            :total := total;
            select name into :name from emp where id = :id;
            i := 0;
            while i < 5 loop
                i := i + 1;
                continue when mod(i, 2) = 0;
                :odd := nvl(:odd, 0) + i;
            end loop;
            :flag := case when total > 500 then 'big' else 'small' end;
            :id := :id + 1;
         end;",
        &[Value::Null, Value::Null, n(2), Value::Null, Value::Null],
    );
    assert_eq!(out, [n(600), t("Bob"), n(3), n(9), t("big")]);
    let e = fail(
        &mut s,
        &mut db,
        "begin
            update emp set salary = salary * 2;
            insert into emp values (1, 'Dup', 1);
         end;",
        &[],
    );
    assert_eq!(e.code, 1);
    assert_eq!(run(&mut s, &mut db, "select salary from emp where id = 3", &[]).rows[0][0], n(300));
    let out = block(
        &mut s,
        &mut db,
        "declare
            v emp.name%type;
         begin
            begin
                select name into v from emp where id = 42;
            exception
                when no_data_found then :a := 'none';
            end;
            begin
                select name into v from emp;
            exception
                when too_many_rows then :b := sqlcode;
            end;
         end;",
        &[Value::Null, Value::Null],
    );
    assert_eq!(out, [t("none"), n(-1422)]);
    let e = fail(
        &mut s,
        &mut db,
        "begin raise_application_error(-20001, 'Bad input: ' || :x); end;",
        &[t("42")],
    );
    assert_eq!((e.code, e.message.as_str()), (20001, "Bad input: 42"));
}

#[test]
fn cursors_walk_rows_into_records() {
    let mut db = make(
        "create table emp (id number primary key, name varchar2(20));
         insert into emp values (1, 'Ada');
         insert into emp values (2, 'Bob');",
    );
    let mut s = db.session("U");
    let out = block(
        &mut s,
        &mut db,
        "declare
            cursor c(p_min number) is select id, name from emp where id >= p_min;
            r c%rowtype;
            e emp%rowtype;
            names varchar2(100);
         begin
            open c(1);
            loop
                fetch c into r;
                exit when c%notfound;
                names := names || r.name || ',';
            end loop;
            :count := c%rowcount;
            close c;
            select * into e from emp where id = 2;
            :e := e.id || '=' || e.name;
            update emp set name = upper(name);
            :updated := sql%rowcount;
            :names := names;
         end;",
        &[Value::Null, Value::Null, Value::Null, Value::Null],
    );
    assert_eq!(out, [n(2), t("2=Bob"), n(2), t("Ada,Bob,")]);
}

#[test]
fn routines_are_called_from_blocks() {
    let mut db = make(
        "create table accounts (id number primary key, balance number not null);
         insert into accounts values (1, 100);
         insert into accounts values (2, 50);

         create or replace procedure transfer(
             p_from in number, p_to in number, p_amount in number, p_new_balance out number
         ) as
             v_balance accounts.balance%type;
         begin
             select balance into v_balance from accounts where id = p_from;
             if v_balance < p_amount then
                 raise_application_error(-20001, 'Insufficient funds');
             end if;
             update accounts set balance = balance - p_amount where id = p_from;
             update accounts set balance = balance + p_amount where id = p_to;
             select balance into p_new_balance from accounts where id = p_from;
         end transfer;
         /

         create function balance_of(p_id number) return number is
             v number;
         begin
             select balance into v from accounts where id = p_id;
             return v;
         exception
             when no_data_found then return null;
         end;
         /

         create function fact(n pls_integer) return number deterministic is
         begin
             if n <= 1 then return 1; end if;
             return n * fact(n - 1);
         end;
         /",
    );
    let mut s = db.session("U");
    assert_eq!(block(&mut s, &mut db, "begin transfer(1, 2, 30, :bal); end;", &[Value::Null]), [n(70)]);
    let out = block(
        &mut s,
        &mut db,
        "begin transfer(p_to => 1, p_from => 2, p_amount => :amt, p_new_balance => :bal); end;",
        &[n(10), Value::Null],
    );
    assert_eq!(out, [n(10), n(70)]);
    let e = fail(&mut s, &mut db, "begin transfer(1, 2, 1000, :b); end;", &[Value::Null]);
    assert_eq!((e.code, e.message.as_str()), (20001, "Insufficient funds"));
    assert_eq!(fail(&mut s, &mut db, "begin transfer(1, 2); end;", &[]).code, 6550);
    let out = block(
        &mut s,
        &mut db,
        "begin :x := balance_of(99); :y := fact(3); :z := balance_of(1); :w := fact(5); end;",
        &vec![Value::Null; 4],
    );
    assert_eq!(out, [Value::Null, n(6), n(80), n(120)]);
    assert_eq!(block(&mut s, &mut db, "call transfer(2, 1, 5, :b)", &[Value::Null]), [n(65)]);
    assert_eq!(fail(&mut s, &mut db, "create procedure transfer is begin null; end;", &[]).code, 955);
    assert_eq!(fail(&mut s, &mut db, "drop procedure fact", &[]).code, 4043);
}

#[test]
fn far_dates_are_told_apart() {
    let mut db = make(
        "create table d (x date unique);
         insert into d values (date '9999-12-31');
         insert into d values (date '0001-01-01');",
    );
    assert_eq!(one(&mut db, "select count(*) from d"), n(2));
    assert_eq!(code(&mut db, "insert into d values (date '0001-01-01')"), 1);
    assert_eq!(one(&mut db, "select count(*) from d where x < date '2000-01-01'"), n(1));
    assert_eq!(code(&mut db, "select date '2024-02-30' from dual"), 1839);
}

#[test]
fn functions_in_queries() {
    let mut db = Database::new();
    let cases = [
        ("nvl(null, 'x')", t("x")),
        ("nvl2(1, 'a', 'b')", t("a")),
        ("coalesce(null, null, 3)", n(3)),
        ("decode(2, 1, 'one', 2, 'two', 'other')", t("two")),
        ("decode(null, null, 'null')", t("null")),
        ("nullif(1, 1)", Value::Null),
        ("upper('abc') || lower('DEF') || initcap('hello wORLD')", t("ABCdefHello World")),
        ("length('héllo')", n(5)),
        ("substr('hello', 2, 3)", t("ell")),
        ("substr('hello', -3)", t("llo")),
        ("instr('hello', 'l')", n(3)),
        ("instr('hello', 'l', -1)", n(4)),
        ("replace('aXbX', 'X', '-')", t("a-b-")),
        ("trim('  x  ') || '|'", t("x|")),
        ("ltrim('xxy', 'x')", t("y")),
        ("lpad('7', 3, '0')", t("007")),
        ("rpad('ab', 4, '*')", t("ab**")),
        ("round(2.555, 2)", dec("2.56")),
        ("trunc(2.555, 1)", dec("2.5")),
        ("round(1234, -2)", n(1200)),
        ("mod(10, 3)", n(1)),
        ("mod(-10, 3)", n(-1)),
        ("power(2, 10)", n(1024)),
        ("abs(-3) + ceil(1.2) + floor(1.8)", n(6)),
        ("greatest(1, 3, 2)", n(3)),
        ("least('b', 'a')", t("a")),
        ("to_char(1234.5, '9,999.99')", t(" 1,234.50")),
        ("to_char(42)", t("42")),
        ("to_number('12.50')", dec("12.5")),
        (
            "to_char(to_date('2024-02-10 13:05:09', 'YYYY-MM-DD HH24:MI:SS'), 'DD/MM/YYYY HH:MI:SS AM')",
            t("10/02/2024 01:05:09 PM"),
        ),
        ("to_char(add_months(date '2024-01-31', 1), 'YYYY-MM-DD')", t("2024-02-29")),
        ("to_char(last_day(date '2023-02-10'), 'DD')", t("28")),
        ("months_between(date '2024-03-15', date '2024-01-15')", n(2)),
        (
            "to_char(trunc(to_date('2024-05-17 10:00', 'YYYY-MM-DD HH24:MI'), 'MM'), 'YYYY-MM-DD')",
            t("2024-05-01"),
        ),
        ("case when 1 = 2 then 'a' when 2 = 2 then 'b' end", t("b")),
        ("case 3 when 1 then 'a' else 'z' end", t("z")),
        ("chr(65) || ascii('a')", t("A97")),
        ("1/3", dec(".3333333333333333333333333333333333333333")),
        ("user", t("MOCK")),
    ];
    for (expr, expected) in cases {
        assert_eq!(one(&mut db, &format!("select {expr} from dual")), expected, "{expr}");
    }
    assert!(matches!(one(&mut db, "select sysdate from dual"), Value::Date(_)));
    assert!(matches!(one(&mut db, "select systimestamp from dual"), Value::Timestamp(_)));
    assert_eq!(code(&mut db, "select nosuch(1) from dual"), 904);
    assert_eq!(code(&mut db, "select nvl(1) from dual"), 909);
}
