use mock_oracle::datetime::{add_months, parse as parse_date, trunc, DateTime};
use mock_oracle::engine::{OutBind, QueryResult};
use mock_oracle::ddl::Database;
use mock_oracle::env::Env;
use mock_oracle::functions;
use mock_oracle::lexer::{tokenize, Tok};
use mock_oracle::number::{format_number, Number};
use mock_oracle::numfmt::format_number_with;
use mock_oracle::parser::{count_binds, parse, parse_statement};
use mock_oracle::script::{bind_directions, split_script, BindDir};
use mock_oracle::session::{parse_time_zone, Session};
use mock_oracle::ast::{SelectItem, SetExpr, Statement};
use mock_oracle::value::{SqlType, Value};

fn toks(sql: &str) -> Vec<Tok> {
    tokenize(sql).unwrap().into_iter().map(|t| t.tok).collect()
}

#[test]
fn tokenizes_select() {
    assert_eq!(
        toks("select 'it''s', 1.5e2, :id from dual -- note"),
        vec![
            Tok::Ident("SELECT".into()),
            Tok::Str("it's".into()),
            Tok::Symbol(","),
            Tok::Number("1.5e2".into()),
            Tok::Symbol(","),
            Tok::Bind("ID".into()),
            Tok::Ident("FROM".into()),
            Tok::Ident("DUAL".into()),
        ]
    );
}

#[test]
fn tokenizes_plsql_symbols() {
    assert_eq!(
        toks("for i in 1..10 loop x := c%rowcount; p(a => 1.5); end loop"),
        vec![
            Tok::Ident("FOR".into()),
            Tok::Ident("I".into()),
            Tok::Ident("IN".into()),
            Tok::Number("1".into()),
            Tok::Symbol(".."),
            Tok::Number("10".into()),
            Tok::Ident("LOOP".into()),
            Tok::Ident("X".into()),
            Tok::Symbol(":="),
            Tok::Ident("C".into()),
            Tok::Symbol("%"),
            Tok::Ident("ROWCOUNT".into()),
            Tok::Symbol(";"),
            Tok::Ident("P".into()),
            Tok::Symbol("("),
            Tok::Ident("A".into()),
            Tok::Symbol("=>"),
            Tok::Number("1.5".into()),
            Tok::Symbol(")"),
            Tok::Symbol(";"),
            Tok::Ident("END".into()),
            Tok::Ident("LOOP".into()),
        ]
    );
}

#[test]
fn unterminated_string_is_ora_01756() {
    assert_eq!(tokenize("select 'x from dual").unwrap_err().code, 1756);
}

fn names(sql: &str) -> Vec<String> {
    match parse(sql).ok().unwrap() {
        Statement::Query(q) => match q.body {
            SetExpr::Select(s) => s
                .items
                .into_iter()
                .map(|i| match i {
                    SelectItem::Expr { name, .. } => name,
                    SelectItem::Star => "*".to_string(),
                    SelectItem::QualifiedStar(t) => t,
                })
                .collect(),
            _ => vec![],
        },
        _ => vec![],
    }
}

#[test]
fn column_names_follow_oracle() {
    assert_eq!(names("select 1 from dual"), ["1"]);
    assert_eq!(names("select 1 + 1, 'ab' from dual"), ["1+1", "'AB'"]);
    assert_eq!(
        names("select 1 as one, 2 two, 3 \"Three\" from dual"),
        ["ONE", "TWO", "Three"]
    );
    assert_eq!(names("select * from dual"), ["*"]);
}

#[test]
fn binds_are_numbered_by_occurrence() {
    let stmt = parse("select :a, :b, :a from dual").ok().unwrap();
    assert_eq!(count_binds(&stmt), 3);
}

#[test]
fn errors_match_oracle() {
    assert_eq!(parse("select 1").err().unwrap().code, 923);
    assert_eq!(parse("select from dual").err().unwrap().code, 936);
    assert_eq!(parse("select 1 from users").err().unwrap().code, 942);
    assert_eq!(parse("select 1 from dual;").err().unwrap().code, 911);
    assert_eq!(parse("select (1 from dual").err().unwrap().code, 907);
    assert_eq!(parse("frob").err().unwrap().code, 900);
}

#[test]
fn unsupported_statement_reports_ora_00900() {
    let err = Database::new().execute("FROB").err().unwrap();
    assert_eq!(err.to_string(), "ORA-00900: invalid SQL statement");
}

#[test]
fn empty_string_is_null() {
    assert_eq!(Value::varchar(""), Value::Null);
}

#[test]
fn numbers_format_like_oracle() {
    let f = |s: &str| format_number(&Number::parse(s).unwrap());
    assert_eq!(f("1"), "1");
    assert_eq!(f("1.50"), "1.5");
    assert_eq!(f("0.25"), ".25");
    assert_eq!(f("-0.25"), "-.25");
    assert_eq!(f("1e3"), "1000");
    assert_eq!(f("0"), "0");
}

fn dt(y: i32, mo: u32, d: u32, h: u32, mi: u32, s: u32, n: u32) -> DateTime {
    DateTime::new(y, mo, d, h, mi, s, n).unwrap()
}

#[test]
fn formats() {
    let d = dt(2024, 3, 5, 14, 7, 9, 123456000);
    assert_eq!(mock_oracle::datetime::format(&d, "YYYY-MM-DD HH24:MI:SS"), "2024-03-05 14:07:09");
    assert_eq!(mock_oracle::datetime::format(&d, "DD-MON-RR"), "05-MAR-24");
    assert_eq!(mock_oracle::datetime::format(&d, "fmDD Month YYYY"), "5 March 2024");
    assert_eq!(mock_oracle::datetime::format(&d, "HH:MI AM"), "02:07 PM");
    assert_eq!(mock_oracle::datetime::format(&d, "Dy, DD.MM.YYYY"), "Tue, 05.03.2024");
    assert_eq!(mock_oracle::datetime::format(&d, "HH24:MI:SS.FF3"), "14:07:09.123");
    assert_eq!(mock_oracle::datetime::format(&d, "YYYY\"Q\"MM"), "2024Q03");
}

#[test]
fn parses() {
    assert_eq!(parse_date("2024-03-05", "YYYY-MM-DD").unwrap(), dt(2024, 3, 5, 0, 0, 0, 0));
    assert_eq!(parse_date("05-MAR-24", "DD-MON-RR").unwrap(), dt(2024, 3, 5, 0, 0, 0, 0));
    assert_eq!(parse_date("5-mar-1999", "DD-MON-RR").unwrap(), dt(1999, 3, 5, 0, 0, 0, 0));
    assert_eq!(
        parse_date("2024/3/5 2:07:09 PM", "YYYY-MM-DD HH:MI:SS AM").unwrap(),
        dt(2024, 3, 5, 14, 7, 9, 0)
    );
    assert_eq!(
        parse_date("2024-03-05 14:07:09.5", "YYYY-MM-DD HH24:MI:SS.FF").unwrap(),
        dt(2024, 3, 5, 14, 7, 9, 500000000)
    );
    assert_eq!(parse_date("2024-02-30", "YYYY-MM-DD").unwrap_err().code, 1839);
    assert_eq!(parse_date("2024-13-01", "YYYY-MM-DD").unwrap_err().code, 1843);
    assert_eq!(parse_date("2024-01-01 junk", "YYYY-MM-DD").unwrap_err().code, 1830);
}

#[test]
fn month_arithmetic() {
    assert_eq!(add_months(&dt(2024, 1, 31, 10, 0, 0, 0), 1), dt(2024, 2, 29, 10, 0, 0, 0));
    assert_eq!(add_months(&dt(2024, 2, 29, 0, 0, 0, 0), 12), dt(2025, 2, 28, 0, 0, 0, 0));
    assert_eq!(add_months(&dt(2024, 3, 15, 0, 0, 0, 0), -3), dt(2023, 12, 15, 0, 0, 0, 0));
    assert_eq!(trunc(&dt(2024, 3, 15, 10, 11, 12, 0), "MM").unwrap(), dt(2024, 3, 1, 0, 0, 0, 0));
}

fn nf(n: &str, fmt: &str) -> String {
    format_number_with(&Number::parse(n).unwrap(), fmt).unwrap()
}

#[test]
fn number_formats() {
    assert_eq!(nf("1234.5", "9999.99"), " 1234.50");
    assert_eq!(nf("1234.5", "9,999.99"), " 1,234.50");
    assert_eq!(nf("0.5", "9.99"), "  .50");
    assert_eq!(nf("0.5", "0.99"), " 0.50");
    assert_eq!(nf("-12", "999"), " -12");
    assert_eq!(nf("42", "FM999"), "42");
    assert_eq!(nf("1.5", "FM999.99"), "1.5");
    assert_eq!(nf("7", "000"), " 007");
    assert_eq!(nf("12345", "999"), "####");
    assert_eq!(nf("5", "$99.00"), "  $5.00");
    assert_eq!(nf("0", "999"), "   0");
}

#[test]
fn scripts_keep_plsql_units_whole() {
    assert_eq!(
        split_script(
            "create table t (x number);
             begin
               insert into t values (1);
               insert into t values (2);
             end;
             /
             create or replace procedure p as begin null; end;
             /
             select 1 from dual;"
        )
        .len(),
        4
    );
}

#[test]
fn scripts_split_at_semicolons_outside_quotes() {
    assert_eq!(split_script("a 'x;y' b; c"), ["a 'x;y' b", "c"]);
    assert_eq!(split_script(" ; \n/\n ").len(), 0);
}

#[test]
fn update_returning_bind_positions() {
    assert_eq!(
        bind_directions(
            "update orders set amount = amount * 2 where amount > :min returning customer, amount into :c, :a"
        )
        .unwrap(),
        [BindDir::In, BindDir::Returning, BindDir::Returning]
    );
}

#[test]
fn block_binds_go_both_ways() {
    assert_eq!(bind_directions("begin :a := :b + :a; end;").unwrap(), [BindDir::InOut, BindDir::InOut]);
    assert_eq!(bind_directions("frob").unwrap_err().code, 900);
}

fn n(s: &str) -> Value {
    Value::parse_number(s).unwrap()
}

fn s(x: &str) -> Value {
    Value::varchar(x)
}

fn run(db: &mut Database, sql: &str, binds: &[Value]) -> QueryResult {
    let mut ses = db.session("U");
    ses.execute(db, sql, &binds.to_vec()).ok().unwrap()
}

fn code(db: &mut Database, sql: &str) -> u32 {
    let mut ses = db.session("U");
    ses.execute(db, sql, &Vec::new()).err().unwrap().code
}

#[test]
fn select_from_dual() {
    let mut db = Database::new();
    let r = run(&mut db, "SELECT 1 FROM DUAL", &[]);
    assert!(r.is_query);
    assert_eq!(r.columns[0].name, "1");
    assert_eq!(r.columns[0].sql_type, SqlType::Number { precision: 0, scale: 0 });
    assert_eq!(r.rows, vec![vec![n("1")]]);
    let r = run(
        &mut db,
        "select 2 * (3 + 4) n, 'a' || 1 || null s, '' e, dummy from dual",
        &[],
    );
    assert_eq!(r.rows[0], vec![n("14"), s("a1"), Value::Null, s("X")]);
    assert_eq!(r.columns[1].sql_type, SqlType::Varchar2(2));
    assert_eq!(r.columns[2].sql_type, SqlType::Varchar2(0));
    assert_eq!(run(&mut db, "select * from dual", &[]).rows, vec![vec![s("X")]]);
}

#[test]
fn binds() {
    let mut db = Database::new();
    let r = run(&mut db, "select :a + 1, :b from dual", &[s("41"), s("hi")]);
    assert_eq!(r.rows[0], vec![n("42"), s("hi")]);
    assert_eq!(code(&mut db, "select :a from dual"), 1008);
}

#[test]
fn oracle_errors() {
    let mut db = Database::new();
    let mut ses = db.session("U");
    assert_eq!(
        ses.execute(&mut db, "select 1/0 from dual", &vec![]).err().unwrap().to_string(),
        "ORA-01476: divisor is equal to zero"
    );
    assert_eq!(code(&mut db, "select 'x' + 1 from dual"), 1722);
    assert_eq!(
        ses.execute(&mut db, "select foo from dual", &vec![]).err().unwrap().to_string(),
        "ORA-00904: \"FOO\": invalid identifier"
    );
    assert_eq!(code(&mut db, "FROB"), 900);
    assert_eq!(code(&mut db, "select * from nope"), 942);
}

#[test]
fn functions_take_their_names_and_arguments() {
    let env = Env::new("SCOTT");
    let call = |name: &str, a: Vec<Value>| functions::call(&env, name, &a).unwrap();
    assert_eq!(call("UPPER", vec![s("ab")]), s("AB"));
    assert_eq!(call("SUBSTR", vec![s("hello"), Value::number(2), Value::number(3)]), s("ell"));
    assert_eq!(call("ROUND", vec![n("2.567"), Value::number(2)]), n("2.57"));
    assert_eq!(call("POWER", vec![Value::number(2), Value::number(10)]), n("1024"));
    assert_eq!(call("SQRT", vec![Value::number(16)]), n("4"));
    assert_eq!(call("EXP", vec![Value::number(0)]), n("1"));
    assert_eq!(call("LN", vec![Value::number(1)]), n("0"));
    assert_eq!(call("LOG", vec![Value::number(10), Value::number(100)]), n("2"));
    assert_eq!(call("CHR", vec![Value::number(65)]), s("A"));
    assert_eq!(call("USER", vec![]), s("SCOTT"));
    assert_eq!(functions::call(&env, "UPPER", &vec![]).unwrap_err().code, 909);
}

fn values(r: QueryResult) -> Vec<Value> {
    r.out_binds
        .into_iter()
        .map(|b| match b {
            OutBind::Value(v) => v,
            _ => panic!("a block's bind"),
        })
        .collect()
}

fn block(ses: &mut Session, db: &mut Database, sql: &str, binds: &[Value]) -> Vec<Value> {
    match ses.execute(db, sql, &binds.to_vec()) {
        Ok(r) => values(r),
        Err(e) => panic!("{sql}: {}", e.to_string()),
    }
}

#[test]
fn booleans_and_nested_routines() {
    let mut db = Database::new();
    let mut ses = db.session("U");
    let out = block(
        &mut ses,
        &mut db,
        "declare
            ok boolean := true;
            function twice(x number) return number is begin return x * 2; end;
            procedure bump(x in out number) is begin x := x + 1; end;
            v number := 1;
         begin
            if ok and not (1 > 2) then
                bump(v);
                :r := twice(v);
            end if;
            <<outer>>
            for i in 1 .. 3 loop
                for j in reverse 1 .. 3 loop
                    exit outer when i * j = 6;
                    :last := i * 10 + j;
                end loop;
            end loop outer;
         end;",
        &[Value::Null, Value::Null],
    );
    assert_eq!(out, [Value::number(4), Value::number(11)]);
}

#[test]
fn skipped_operands_do_not_call_functions() {
    let mut db = Database::new();
    let mut ses = db.session("U");
    for piece in split_script(
        "create function boom return number is
         begin
             raise_application_error(-20001, 'should not run');
         end;
         /
         create function one return number is begin return 1; end;
         /",
    ) {
        assert!(ses.execute(&mut db, &piece, &vec![]).is_ok(), "{piece}");
    }
    let out = block(
        &mut ses,
        &mut db,
        "declare n number := 0;
         begin
             :a := case when n = 0 then 0 else boom() end;
             :b := nvl(1, boom());
             :c := coalesce(null, one(), boom());
             :d := decode(one(), 1, 'one', boom());
             :e := nvl2(null, boom(), 'else');
             if n = 1 and boom() = 1 then :f := 'bad'; else :f := 'and'; end if;
             if one() = 1 or boom() = 1 then :g := 'or'; end if;
             :h := case one() when 2 then boom() when 1 then 'hit' end;
         end;",
        &vec![Value::Null; 8],
    );
    assert_eq!(
        out,
        [
            Value::number(0),
            Value::number(1),
            Value::number(1),
            s("one"),
            s("else"),
            s("and"),
            s("or"),
            s("hit")
        ]
    );
    let e = ses
        .execute(&mut db, "begin :x := case when 1 = 1 then boom() end; end;", &vec![Value::Null])
        .err()
        .unwrap();
    assert_eq!(e.code, 20001);
}

#[test]
fn dbms_output_limit_counts_only_buffered_bytes() {
    let mut db = Database::new();
    let mut ses = db.session("U");
    block(
        &mut ses,
        &mut db,
        "declare line varchar2(2000); status number;
         begin
             dbms_output.enable;
             for i in 1 .. 1500 loop
                 dbms_output.put_line(rpad('x', 1000, 'x'));
                 dbms_output.get_line(line, status);
             end loop;
         end;",
        &[],
    );
}

#[test]
fn handlers_catch_what_they_name() {
    let mut db = Database::new();
    let mut ses = db.session("U");
    let out = block(
        &mut ses,
        &mut db,
        "declare
            e_custom exception;
         begin
            begin
                raise e_custom;
            exception
                when e_custom then :c := sqlerrm;
            end;
            begin
                :d := 1 / 0;
            exception
                when others then :d := sqlcode;
            end;
            begin
                select dummy into :e from dual where 1 = 2;
            exception
                when no_data_found then :e := 'none';
            end;
         end;",
        &[Value::Null, Value::Null, Value::Null],
    );
    assert_eq!(out, [s("User-Defined Exception"), Value::number(-1476), s("none")]);
    for (sql, code) in [
        ("declare x varchar2(2); begin x := 'abc'; end;", 6502),
        ("declare e exception; begin raise e; end;", 6510),
        ("begin x := 1; end;", 6550),
        ("begin raise_application_error(-1, 'x'); end;", 21000),
        ("begin raise_application_error(-20001, 'Bad'); end;", 20001),
        ("declare c constant number := 1; begin c := 2; end;", 6550),
        ("begin case 1 when 2 then null; end case; end;", 6592),
        ("declare procedure p is begin p; end; begin p; end;", 36),
    ] {
        assert_eq!(ses.execute(&mut db, sql, &vec![]).err().unwrap().code, code, "{sql}");
    }
    let e = ses.execute(&mut db, "begin :x := nosuch; end;", &vec![Value::Null]).err().unwrap();
    assert_eq!(e.code, 6550);
}

#[test]
fn plsql_syntax_errors_are_pls_00103() {
    for sql in ["begin", "begin end;", "declare x number begin null; end;", "begin if 1 = 1 then null; end;", "begin null end;"] {
        let e = parse_statement(sql).err().unwrap();
        assert!(e.code == 6550 || e.code == 905, "{sql}: {}", e.to_string());
    }
    assert_eq!(parse_statement("begin savepoint x; end;").err().unwrap().code, 3001);
    assert_eq!(parse_statement("select 1 from dual x y").err().unwrap().code, 933);
}

#[test]
fn exponents_may_be_beyond_32_bits() {
    assert!(Number::parse("1e3000000000").is_some());
    assert!(Number::parse("-2.5e-3000000000").is_some());
    assert!(Number::parse("1e").is_none());
    assert!(Number::parse("e5").is_none());
}

#[test]
fn formatted_numbers_read_back() {
    for x in ["0", "-7", "0.25", "1234567890.0987", "-1e-5", "12e4"] {
        let shown = format_number(&Number::parse(x).unwrap());
        assert_eq!(format_number(&Number::parse(&shown).unwrap()), shown, "{x}");
    }
}

#[test]
fn written_dates_read_back() {
    let model = "YYYY-MM-DD HH24:MI:SS.FF9";
    for d in [dt(2024, 2, 29, 23, 59, 58, 123456789), dt(1, 1, 1, 0, 0, 0, 0), dt(9999, 12, 31, 12, 30, 0, 1)] {
        assert_eq!(parse_date(&mock_oracle::datetime::format(&d, model), model).unwrap(), d);
    }
}

#[test]
fn date_models_compare_in_capitals() {
    let day = dt(2024, 3, 5, 0, 0, 0, 0);
    assert_eq!(parse_date("ss2024-03-05", "\"ß\"YYYY-MM-DD").unwrap(), day);
    assert_eq!(parse_date("on 2024-03-05", "\"ON \"YYYY-MM-DD").unwrap(), day);
    assert_eq!(parse_date("05-MaR-2024", "DD-MON-YYYY").unwrap(), day);
    assert_eq!(parse_date("ſep", "MON").unwrap_err().code, 1830);
    assert_eq!(parse_date("at 2024", "\"on \"YYYY").unwrap_err().code, 1861);
}

#[test]
fn a_model_that_cannot_be_read_shows_the_moment() {
    let show = |d: DateTime| mock_oracle::datetime::format(&d, "QQQ");
    assert_eq!(show(dt(2024, 3, 5, 14, 7, 9, 0)), "2024-03-05 14:07:09");
    assert_eq!(show(dt(2024, 3, 5, 14, 7, 9, 120000000)), "2024-03-05 14:07:09.120");
    assert_eq!(show(dt(2024, 3, 5, 14, 7, 9, 120000)), "2024-03-05 14:07:09.000120");
    assert_eq!(show(dt(2024, 3, 5, 14, 7, 9, 12)), "2024-03-05 14:07:09.000000012");
    assert_eq!(show(dt(-5, 12, 31, 23, 59, 59, 1500000000)), "-0005-12-31 23:59:60.500");
    assert_eq!(show(dt(12024, 1, 1, 0, 0, 0, 0)), "+12024-01-01 00:00:00");
}

#[test]
fn time_zones() {
    assert_eq!(parse_time_zone("UTC", 90).unwrap(), 0);
    assert_eq!(parse_time_zone(" local ", 90).unwrap(), 90);
    assert_eq!(parse_time_zone("SessionTimeZone", -210).unwrap(), -210);
    assert_eq!(parse_time_zone("+05:30", 90).unwrap(), 330);
    assert_eq!(parse_time_zone("-3", 90).unwrap(), -180);
    assert_eq!(parse_time_zone("Mars", 90).unwrap_err().code, 1882);
    assert_eq!(parse_time_zone("+20:00", 90).unwrap_err().code, 1874);
    let mut db = Database::new();
    let mut ses = db.session("U");
    for sql in ["alter session set time_zone = local", "alter session set time_zone = '+02:00'"] {
        assert!(ses.execute(&mut db, sql, &vec![]).is_ok(), "{sql}");
    }
    assert_eq!(code(&mut db, "alter session set time_zone = 'Mars'"), 1882);
}
