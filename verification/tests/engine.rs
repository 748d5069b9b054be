use mock_oracle::datetime::DateTime;
use mock_oracle::ddl::Database;
use mock_oracle::engine::{OutBind, QueryResult};
use mock_oracle::error::OraError;
use mock_oracle::script::{bind_directions, split_script, BindDir};
use mock_oracle::session::Session;
use mock_oracle::value::{SqlType, Value};

fn num(s: &str) -> Value {
    Value::parse_number(s).unwrap()
}

fn txt(x: &str) -> Value {
    Value::varchar(x)
}

/// Runs a statement that succeeds.
fn done(db: &mut Database, sql: &str) -> QueryResult {
    match db.execute(sql) {
        Ok(r) => r,
        Err(e) => panic!("{sql}: {}", e.to_string()),
    }
}

/// Runs a statement that fails.
fn failure(db: &mut Database, sql: &str) -> OraError {
    match db.execute(sql) {
        Ok(_) => panic!("{sql} should fail"),
        Err(e) => e,
    }
}

/// Runs a query that returns one value.
fn single(db: &mut Database, sql: &str) -> Value {
    let r = done(db, sql).rows;
    assert_eq!(r.len(), 1, "{sql}");
    r[0][0].clone()
}

/// Runs a statement of a session that succeeds.
fn step(s: &mut Session, db: &mut Database, sql: &str, binds: &[Value]) -> QueryResult {
    match s.execute(db, sql, &binds.to_vec()) {
        Ok(r) => r,
        Err(e) => panic!("{sql}: {}", e.to_string()),
    }
}

/// Runs a statement of a session that fails.
fn refused(s: &mut Session, db: &mut Database, sql: &str) -> OraError {
    match s.execute(db, sql, &Vec::new()) {
        Ok(_) => panic!("{sql} should fail"),
        Err(e) => e,
    }
}

/// Runs a block and returns its bind values afterwards.
fn bound(s: &mut Session, db: &mut Database, sql: &str, binds: &[Value]) -> Vec<Value> {
    step(s, db, sql, binds)
        .out_binds
        .into_iter()
        .map(|b| match b {
            OutBind::Value(v) => v,
            _ => panic!("not a value"),
        })
        .collect()
}

/// The values that a RETURNING clause put in each bind.
fn returned(r: QueryResult) -> Vec<Option<Vec<Value>>> {
    r.out_binds
        .into_iter()
        .map(|b| match b {
            OutBind::Returning(v) => Some(v),
            _ => None,
        })
        .collect()
}

#[test]
fn nls_date_format() {
    let mut db = Database::new();
    let mut s1 = db.session("scott");
    step(&mut s1, &mut db, "create table t (d date)", &[]);
    step(&mut s1, &mut db, "insert into t values ('05-MAR-24')", &[]);
    step(&mut s1, &mut db, "alter session set nls_date_format = 'YYYY-MM-DD'", &[]);
    let r = step(&mut s1, &mut db, "select to_char(d), d || '' from t", &[]);
    assert_eq!(r.rows[0], vec![txt("2024-03-05"), txt("2024-03-05")]);
    step(&mut s1, &mut db, "insert into t values ('2024-12-31')", &[]);
    assert_eq!(
        step(&mut s1, &mut db, "select count(*) from t where d > '2024-06-01'", &[]).rows[0][0],
        num("1")
    );
    assert_eq!(refused(&mut s1, &mut db, "insert into t values ('31/12/2024')").code, 1830);
    assert_eq!(refused(&mut s1, &mut db, "alter session set nls_date_format = 'QQQ'").code, 1821);
    assert_eq!(step(&mut s1, &mut db, "select user from dual", &[]).rows[0][0], txt("SCOTT"));
}

#[test]
fn unique_index() {
    let mut db = Database::new();
    db.run_script("create table u (a number, b number); create unique index u_ab on u (a, b); insert into u values (1, 1)").unwrap();
    let e = failure(&mut db, "insert into u values (1, 1)");
    assert_eq!(
        e.to_string(),
        "ORA-00001: unique constraint (MOCK.U_AB) violated"
    );
    done(&mut db, "insert into u values (null, null)");
    done(&mut db, "insert into u values (null, null)");
    done(&mut db, "drop index u_ab");
    done(&mut db, "insert into u values (1, 1)");
    assert_eq!(failure(&mut db, "create unique index u_ab on u (a, b)").code, 1452);
}

#[test]
fn returning_into_binds() {
    let mut db = Database::new();
    db.run_script(
        "create table t (id number generated always as identity, name varchar2(20));
         insert into t (name) values ('a');
         insert into t (name) values ('b');",
    )
    .unwrap();
    assert_eq!(
        bind_directions("insert into t (name) values (:n) returning id, name into :id, :nm")
            .unwrap(),
        [BindDir::In, BindDir::Returning, BindDir::Returning]
    );
    let mut ses = db.session("U");
    let r = step(
        &mut ses,
        &mut db,
        "insert into t (name) values (:n) returning id, upper(name) into :id, :nm",
        &[txt("c"), Value::Null, Value::Null],
    );
    assert_eq!(returned(r), [None, Some(vec![num("3")]), Some(vec![txt("C")])]);
    let r = step(
        &mut ses,
        &mut db,
        "update t set name = name || '!' where id < 3 returning name into :x",
        &[Value::Null],
    );
    assert_eq!(r.rows_affected, 2);
    assert_eq!(returned(r), [Some(vec![txt("a!"), txt("b!")])]);
    let r = step(
        &mut ses,
        &mut db,
        "delete from t where id = 99 return id into :x",
        &[Value::Null],
    );
    assert_eq!(returned(r), [Some(vec![])]);
}

#[test]
fn dynamic_sql_and_output() {
    let mut db = Database::new();
    let mut ses = db.session("U");
    let drop_if_exists = "begin
            execute immediate 'drop table t';
         exception
            when others then
                if sqlcode != -942 then raise; end if;
         end;";
    bound(&mut ses, &mut db, drop_if_exists, &[]);
    step(&mut ses, &mut db, "create table t (id number)", &[]);
    bound(&mut ses, &mut db, drop_if_exists, &[]);
    bound(
        &mut ses,
        &mut db,
        "declare v number; begin
            execute immediate 'create table t (id number, name varchar2(10))';
            execute immediate 'insert into t values (:1, :2)' using 1, 'one';
            execute immediate 'select count(*) from t where id = :1' into v using 1;
            dbms_output.enable;
            dbms_output.put_line('count=' || v);
            dbms_output.put('a');
            dbms_output.put_line('b');
         end;",
        &[],
    );
    let out = bound(
        &mut ses,
        &mut db,
        "begin dbms_output.get_line(:line, :status); end;",
        &[Value::Null, Value::Null],
    );
    assert_eq!(out, [txt("count=1"), num("0")]);
    let out = bound(
        &mut ses,
        &mut db,
        "begin dbms_output.get_line(:line, :status); end;",
        &[Value::Null, Value::Null],
    );
    assert_eq!(out, [txt("ab"), num("0")]);
    let out = bound(
        &mut ses,
        &mut db,
        "begin dbms_output.get_line(:line, :status); end;",
        &[Value::Null, Value::Null],
    );
    assert_eq!(out, [Value::Null, num("1")]);
}

#[test]
fn constraints_are_read_in_both_places() {
    let mut db = Database::new();
    db.run_script(
        "create table p (a number, b number, constraint p_ab primary key (a, b), check (a > b));
         create table q (a number references p, b number unique, foreign key (a, b) references p (a, b));
         insert into p values (2, 1)",
    )
    .unwrap();
    assert_eq!(
        failure(&mut db, "insert into p values (2, 1)").to_string(),
        "ORA-00001: unique constraint (MOCK.P_AB) violated"
    );
    assert_eq!(failure(&mut db, "insert into p values (1, 2)").code, 2290);
    assert_eq!(failure(&mut db, "create table r (a nosuch)").code, 902);
    assert_eq!(single(&mut db, "select count(*) from p where a = 2"), num("1"));
    assert_eq!(done(&mut db, "select count(*) n from p").columns[0].name, "N");
}

#[test]
fn scripts() {
    let parts = split_script(
        "create table x (a varchar2(5)); -- comment; not a split\ninsert into x values ('a;b');\n/* ; */ select 1 from dual\n/\n",
    );
    assert_eq!(parts.len(), 3, "{parts:?}");
    assert_eq!(parts[1], "insert into x values ('a;b')");
    assert_eq!(
        split_script("select 1 from dual\n/  \t\nselect 2 from dual\n/\r\n").len(),
        2
    );
    let mut db = Database::new();
    let e = db
        .run_script("create table y (a number); insert into y values ('q')")
        .unwrap_err();
    assert_eq!(e.code, 1722);
    assert!(e.message.contains("insert into y"), "{}", e.message);
}

fn emp() -> Database {
    let mut db = Database::new();
    db.run_script(
        "
        create table dept (id number(4) primary key, name varchar2(30) not null unique);
        create table emp (
            id number(6) constraint emp_pk primary key,
            name varchar2(40) not null,
            dept_id number(4) references dept(id),
            salary number(8,2) check (salary > 0),
            hired date,
            manager_id number(6)
        );
        insert into dept values (10, 'Sales');
        insert into dept values (20, 'Engineering');
        insert into dept values (30, 'Empty');
        insert into emp values (1, 'Ada', 20, 9000, date '2020-01-15', null);
        insert into emp values (2, 'Bob', 10, 5000, date '2021-06-01', 1);
        insert into emp values (3, 'Cy', 20, 7000.5, date '2019-03-10', 1);
        insert into emp values (4, 'Dee', null, 3000, null, 2);
        ",
    )
    .unwrap();
    db
}

#[test]
fn create_insert_select() {
    let mut db = emp();
    let r = done(&mut db, "select * from emp where id = 1");
    let names: Vec<_> = r.columns.iter().map(|c| c.name.as_str()).collect();
    assert_eq!(
        names,
        ["ID", "NAME", "DEPT_ID", "SALARY", "HIRED", "MANAGER_ID"]
    );
    assert_eq!(
        r.columns[0].sql_type,
        SqlType::Number {
            precision: 6,
            scale: 0
        }
    );
    assert_eq!(r.columns[1].sql_type, SqlType::Varchar2(40));
    assert_eq!(r.columns[4].sql_type, SqlType::Date);
    let hired = DateTime::new(2020, 1, 15, 0, 0, 0, 0).unwrap();
    assert_eq!(
        r.rows,
        vec![vec![
            num("1"),
            txt("Ada"),
            num("20"),
            num("9000"),
            Value::Date(hired),
            Value::Null
        ]]
    );
    assert_eq!(single(&mut db, "select count(*) from emp"), num("4"));
    // Columns keep insertion order and scale rounding.
    assert_eq!(
        single(&mut db, "select salary from emp where name = 'Cy'"),
        num("7000.5")
    );
}

#[test]
fn snapshot_and_restore() {
    let mut db = emp();
    let snap = db.snapshot();
    done(&mut db, "delete from emp");
    done(&mut db, "drop table dept");
    db.restore(&snap);
    assert_eq!(single(&mut db, "select count(*) from emp"), num("4"));
    assert_eq!(single(&mut db, "select count(*) from dept"), num("3"));
    db.reset();
    assert_eq!(failure(&mut db, "select * from emp").code, 942);
}

#[test]
fn constraints_hold_for_inserts_and_updates() {
    let mut db = emp();
    let e = failure(&mut db, "insert into emp (id, name) values (1, 'Dup')");
    assert_eq!(
        e.to_string(),
        "ORA-00001: unique constraint (MOCK.EMP_PK) violated"
    );
    assert_eq!(failure(&mut db, "insert into dept values (40, 'Sales')").code, 1);
    let e = failure(&mut db, "insert into emp (id) values (9)");
    assert_eq!(
        e.to_string(),
        "ORA-01400: cannot insert NULL into (\"MOCK\".\"EMP\".\"NAME\")"
    );
    let e = failure(&mut db, "update emp set name = null where id = 1");
    assert_eq!(
        e.to_string(),
        "ORA-01407: cannot update (\"MOCK\".\"EMP\".\"NAME\") to NULL"
    );
    assert_eq!(
        failure(
            &mut db,
            "insert into emp (id, name, salary) values (9, 'X', -1)"
        )
        .code,
        2290
    );
    assert_eq!(
        failure(&mut db, "insert into emp (id, name) values (1234567, 'X')").code,
        1438
    );
    let e = failure(&mut db, "insert into dept values (41, rpad('x', 31, 'x'))");
    assert_eq!(e.to_string(), "ORA-12899: value too large for column \"MOCK\".\"DEPT\".\"NAME\" (actual: 31, maximum: 30)");
    assert_eq!(failure(&mut db, "insert into dept values (41)").code, 947);
    assert_eq!(failure(&mut db, "insert into dept values (41, 'a', 'b')").code, 913);
    assert_eq!(
        failure(&mut db, "insert into dept (id, nope) values (41, 'a')").code,
        904
    );
    assert_eq!(
        failure(
            &mut db,
            "insert into emp (id, name, salary) values (9, 'X', 'abc')"
        )
        .code,
        1722
    );
    assert_eq!(failure(&mut db, "create table dept (x number)").code, 955);
    // A failed statement leaves earlier rows alone, and UPDATE sees the statement as a whole.
    assert_eq!(single(&mut db, "select count(*) from emp"), num("4"));
    assert_eq!(done(&mut db, "update emp set id = id + 1").rows_affected, 4);
    assert_eq!(failure(&mut db, "update emp set id = 3 where id = 2").code, 1);
    // Numbers are rounded to the column's scale.
    done(&mut db, "update emp set salary = 1.005 where id = 2");
    assert_eq!(single(&mut db, "select salary from emp where id = 2"), num("1.01"));
    // CHAR pads.
    done(&mut db, "create table c (code char(3))");
    done(&mut db, "insert into c values ('ab')");
    assert_eq!(single(&mut db, "select code || '|' from c"), txt("ab |"));
}

#[test]
fn extreme_arguments_are_answered() {
    let mut db = Database::new();
    assert_eq!(failure(&mut db, "select add_months(sysdate, 1e9) from dual").code, 1841);
    assert_eq!(
        single(&mut db, "select substr('hello', 2, 1e20) from dual"),
        txt("ello")
    );
    assert_eq!(
        single(&mut db, "select substr('hello', -1e20) from dual"),
        Value::Null
    );
    assert_eq!(
        single(&mut db, "select instr('hello', 'll', 1e20) from dual"),
        num("0")
    );
    assert_eq!(
        single(&mut db, "select instr('hello', 'l', -1e20) from dual"),
        num("0")
    );
    assert_eq!(
        single(&mut db, "select length(lpad('x', 1e12)) from dual"),
        num("32767")
    );
    assert_eq!(single(&mut db, "select round(1.5, 1e18) from dual"), num("1.5"));
    assert_eq!(single(&mut db, "select round(12345, -1e18) from dual"), num("0"));
    // Non-ASCII text in a format model: quoted literals pass through, other letters are rejected.
    assert_eq!(
        single(
            &mut db,
            "select to_char(date '2024-01-01', '\"ıı\"YYYY') from dual"
        ),
        txt("ıı2024")
    );
    assert_eq!(
        failure(&mut db, "alter session set nls_date_format = 'ıYYYY'").code,
        1821
    );
}
