//! Parsing PL/SQL blocks, procedures and functions. SQL statements and expressions
//! inside them are parsed by the SQL parser this extends.

use std::sync::Arc;

use vstd::prelude::*;
use vstd::string::*;

use crate::ast;
use crate::ast::{Expr, Query, Statement};
use crate::error;
use crate::error::{Failure, OraError};
use crate::number;
use crate::parser as sql;
use crate::parser::{
    expected_error, pls_error, pushed_expr, pushed_name, unsupported_error, Parser, Source,
};
use crate::plsql;
use crate::plsql::{
    Arg, Block, CursorDecl, CursorSource, Decl, Handler, Param, ParamMode, Routine, Stmt, Target,
    TypeRef, VarDecl,
};
use crate::strings;
use crate::text;
use crate::tree;
use crate::value::SqlType;

verus! {

pub open spec fn empty_block() -> tree::Block {
    tree::Block { decls: Seq::empty(), body: Seq::empty(), handlers: Seq::empty() }
}

fn no_block() -> (r: Block)
    ensures
        r@ == empty_block(),
{
    let r = Block { decls: Vec::new(), body: Vec::new(), handlers: Vec::new() };
    assert(plsql::decls_tree(r.decls) =~= Seq::empty());
    assert(plsql::stmts_tree(r.body) =~= Seq::empty());
    assert(plsql::handlers_tree(r.handlers) =~= Seq::empty());
    r
}

/// A block of one statement.
pub open spec fn one_statement(s: tree::Stmt) -> tree::Block {
    tree::Block { decls: Seq::empty(), body: seq![s], handlers: Seq::empty() }
}

fn one_statement_block(s: Stmt) -> (r: Block)
    ensures
        r@ == one_statement(s@),
{
    let mut body: Vec<Stmt> = Vec::new();
    body.push(s);
    assert(plsql::stmts_tree(body) =~= seq![s@]);
    let r = Block { decls: Vec::new(), body, handlers: Vec::new() };
    assert(plsql::decls_tree(r.decls) =~= Seq::empty());
    assert(plsql::handlers_tree(r.handlers) =~= Seq::empty());
    r
}

/// The values of arguments, without their names.
pub open spec fn arg_values(args: Seq<tree::Arg>) -> Seq<tree::Expr> {
    args.map_values(|a: tree::Arg| a.value)
}

fn values_of(args: Vec<Arg>) -> (r: Vec<Expr>)
    ensures
        ast::exprs_tree(r) == arg_values(plsql::args_tree(args)),
{
    let ghost all = plsql::args_tree(args);
    let mut out: Vec<Expr> = Vec::new();
    for i in 0..args.len()
        invariant
            all == plsql::args_tree(args),
            ast::exprs_tree(out) == arg_values(all).take(i as int),
    {
        let e = ast::copy_expr(&args[i].value);
        let ghost before = out;
        out.push(e);
        assert(ast::exprs_tree(out) =~= ast::exprs_tree(before).push(e@));
        assert(e@ == all[i as int].value);
        assert(ast::exprs_tree(out) =~= arg_values(all).take(i + 1));
    }
    assert(ast::exprs_tree(out) =~= arg_values(all));
    out
}

/// What an INTO target that was parsed as an expression assigns to.
pub open spec fn target(e: tree::Expr) -> Result<tree::Target, Failure> {
    match e {
        tree::Expr::Bind(i) => Ok(tree::Target::Bind(i)),
        tree::Expr::Column { table, name } => match table {
            None => Ok(tree::Target::Var(name)),
            Some(rec) => Ok(tree::Target::Field(rec, name)),
        },
        _ => Err(sql::expected("a variable"@)),
    }
}

pub(crate) fn target_of(e: &Expr) -> (r: Result<Target, OraError>)
    ensures
        match r {
            Ok(t) => target(e@) == Ok::<tree::Target, Failure>(t@),
            Err(x) => target(e@) == Err::<tree::Target, Failure>(x@),
        },
{
    match e {
        Expr::Bind(i) => Ok(Target::Bind(*i)),
        Expr::Column { table, name } => match table {
            None => Ok(Target::Var(name.clone())),
            Some(rec) => Ok(Target::Field(rec.clone(), name.clone())),
        },
        _ => Err(expected_error("a variable")),
    }
}

pub open spec fn targets_of(es: Seq<tree::Expr>) -> Result<Seq<tree::Target>, Failure>
    decreases es.len(),
{
    if es.len() == 0 {
        Ok(Seq::empty())
    } else {
        match targets_of(es.drop_last()) {
            Err(e) => Err(e),
            Ok(ts) => match target(es.last()) {
                Ok(t) => Ok(ts.push(t)),
                Err(e) => Err(e),
            },
        }
    }
}

proof fn a_bad_target_fails(es: Seq<tree::Expr>, k: int)
    requires
        0 <= k <= es.len(),
        targets_of(es.take(k)) is Err,
    ensures
        targets_of(es) == targets_of(es.take(k)),
    decreases es.len() - k,
{
    if k < es.len() {
        assert(es.take(k + 1).drop_last() =~= es.take(k));
        a_bad_target_fails(es, k + 1);
    } else {
        assert(es.take(k) =~= es);
    }
}

fn targets_from(es: Vec<Expr>) -> (r: Result<Vec<Target>, OraError>)
    ensures
        match r {
            Ok(t) => targets_of(ast::exprs_tree(es)) == Ok::<Seq<tree::Target>, Failure>(
                plsql::targets_tree(t),
            ),
            Err(x) => targets_of(ast::exprs_tree(es)) == Err::<Seq<tree::Target>, Failure>(x@),
        },
{
    let ghost all = ast::exprs_tree(es);
    let mut out: Vec<Target> = Vec::new();
    assert(plsql::targets_tree(out) =~= Seq::empty());
    for i in 0..es.len()
        invariant
            all == ast::exprs_tree(es),
            targets_of(all.take(i as int)) == Ok::<Seq<tree::Target>, Failure>(
                plsql::targets_tree(out),
            ),
    {
        assert(all.take(i + 1).drop_last() =~= all.take(i as int));
        assert(all.take(i + 1).last() == es@[i as int]@);
        match target_of(&es[i]) {
            Ok(t) => {
                let ghost before = out;
                out.push(t);
                assert(plsql::targets_tree(out) =~= plsql::targets_tree(before).push(t@));
            },
            Err(e) => {
                proof {
                    a_bad_target_fails(all, i + 1);
                }
                return Err(e);
            },
        }
    }
    assert(all.take(es@.len() as int) =~= all);
    Ok(out)
}

/// What a cursor FOR loop runs over, when its source was parsed as a sum.
pub open spec fn cursor_source(e: tree::Expr) -> Result<tree::CursorSource, Failure> {
    match e {
        tree::Expr::Column { table: None, name } => Ok(
            tree::CursorSource::Named { name, args: Seq::empty() },
        ),
        tree::Expr::Function { name, args, .. } => Ok(tree::CursorSource::Named { name, args }),
        _ => Err(sql::expected(".."@)),
    }
}

fn source_from(e: Expr) -> (r: Result<CursorSource, OraError>)
    ensures
        match r {
            Ok(s) => cursor_source(e@) == Ok::<tree::CursorSource, Failure>(s@),
            Err(x) => cursor_source(e@) == Err::<tree::CursorSource, Failure>(x@),
        },
{
    match e {
        Expr::Column { table: None, name } => {
            let args: Vec<Expr> = Vec::new();
            assert(ast::exprs_tree(args) =~= Seq::empty());
            Ok(CursorSource::Named { name, args })
        },
        Expr::Function { name, args, .. } => Ok(CursorSource::Named { name, args }),
        _ => Err(expected_error("..")),
    }
}

/// What an assignment to a name assigns to.
pub open spec fn named_target(name: Seq<char>) -> Result<tree::Target, Failure> {
    match strings::index_from(name, '.', 0) {
        None => Ok(tree::Target::Var(name)),
        Some(k) => if strings::index_from(name.skip(k + 1), '.', 0) is None {
            Ok(tree::Target::Field(name.take(k), name.skip(k + 1)))
        } else {
            Err(sql::unsupported("assignment to a package variable"@))
        },
    }
}

fn target_from(name: &str) -> (r: Result<Target, OraError>)
    ensures
        match r {
            Ok(t) => named_target(name@) == Ok::<tree::Target, Failure>(t@),
            Err(x) => named_target(name@) == Err::<tree::Target, Failure>(x@),
        },
{
    let s = text::chars_of(name);
    match strings::index_of(&s, '.') {
        None => Ok(Target::Var(name.to_owned())),
        Some(k) => {
            let total: usize = s.len();
            let record = text::slice(&s, 0, k);
            let field = text::slice(&s, k + 1, total);
            assert(record@ =~= name@.take(k as int));
            assert(field@ =~= name@.skip(k + 1));
            match strings::index_of(&field, '.') {
                None => Ok(Target::Field(text::string_of(&record), text::string_of(&field))),
                Some(_) => Err(unsupported_error("assignment to a package variable")),
            }
        },
    }
}

/// A number without its sign, as far as it fits.
pub open spec fn magnitude(n: int) -> u32 {
    if number::abs(n) <= u32::MAX {
        number::abs(n) as u32
    } else {
        u32::MAX
    }
}

fn magnitude_of(n: i64) -> (r: u32)
    ensures
        r == magnitude(n as int),
{
    if -(u32::MAX as i64) <= n && n < 0 {
        (-n) as u32
    } else if 0 <= n && n <= u32::MAX as i64 {
        n as u32
    } else {
        u32::MAX
    }
}

/// A length, or the greatest one.
pub open spec fn or_longest(n: Option<u32>) -> u32 {
    match n {
        Some(n) => n,
        None => 32767,
    }
}

fn longest_unless(n: Option<u32>) -> (r: u32)
    ensures
        r == or_longest(n),
{
    match n {
        Some(n) => n,
        None => 32767,
    }
}

/// A number of fractional digits, or the usual one.
pub open spec fn or_digits(n: Option<u32>) -> u8 {
    match n {
        Some(n) => if n < 9 {
            n as u8
        } else {
            9
        },
        None => 6,
    }
}

fn digits_unless(n: Option<u32>) -> (r: u8)
    ensures
        r == or_digits(n),
{
    match n {
        Some(n) => if n < 9 {
            n as u8
        } else {
            9
        },
        None => 6,
    }
}

fn one_branch(branch: (Expr, Vec<Stmt>)) -> (r: Vec<(Expr, Vec<Stmt>)>)
    ensures
        plsql::expr_stmtss_tree(r) == seq![(branch.0@, plsql::stmts_tree(branch.1))],
{
    let mut out: Vec<(Expr, Vec<Stmt>)> = Vec::new();
    out.push(branch);
    assert(plsql::expr_stmtss_tree(out) =~= seq![(branch.0@, plsql::stmts_tree(branch.1))]);
    out
}

fn pushed_param(list: Vec<Param>, e: Param) -> (r: Vec<Param>)
    ensures
        plsql::params_tree(r) == plsql::params_tree(list).push(e@),
{
    let mut out = list;
    out.push(e);
    assert(plsql::params_tree(out) =~= plsql::params_tree(list).push(e@));
    out
}

fn pushed_arg(list: Vec<Arg>, e: Arg) -> (r: Vec<Arg>)
    ensures
        plsql::args_tree(r) == plsql::args_tree(list).push(e@),
{
    let mut out = list;
    out.push(e);
    assert(plsql::args_tree(out) =~= plsql::args_tree(list).push(e@));
    out
}

/// Whether a word stands at a place that ends a list of statements.
pub open spec fn ends_list(p: Source, i: int) -> bool {
    sql::is_kw(p, i, "END"@) || sql::is_kw(p, i, "EXCEPTION"@) || sql::is_kw(p, i, "ELSIF"@)
        || sql::is_kw(p, i, "ELSE"@) || sql::is_kw(p, i, "WHEN"@)
}

/// What stands behind brackets that are open `depth` times.
pub open spec fn skip_open(p: Source, i: int, depth: int) -> Result<((), int), Failure>
    decreases p.lex.len() - i,
{
    if depth <= 0 {
        Ok(((), i))
    } else if i < 0 || i >= p.lex.len() {
        Err(error::failure(907, "missing right parenthesis"@))
    } else if sql::is_sym(p, i, "("@) {
        skip_open(p, i + 1, depth + 1)
    } else if sql::is_sym(p, i, ")"@) {
        skip_open(p, i + 1, depth - 1)
    } else {
        skip_open(p, i + 1, depth)
    }
}

/// What stands behind brackets, if there are any.
pub open spec fn skip_parens(p: Source, i: int) -> Result<((), int), Failure> {
    if sql::is_sym(p, i, "("@) {
        skip_open(p, i + 1, 1)
    } else {
        Ok(((), i))
    }
}

/// `[<<label>>]`
pub open spec fn label(p: Source, i: int) -> Result<(Option<Seq<char>>, int), Failure>
    decreases p.lex.len() - i, 1int,
{
    if !sql::is_sym(p, i, "<<"@) {
        Ok((None, i))
    } else {
        match sql::within(sql::ident(p, i + 1), i + 2, p) {
            Err(e) => Err(e),
            Ok((name, i)) => {
                if !sql::is_sym(p, i, ">>"@) {
                    Err(sql::expected(">>"@))
                } else {
                    let i = i + 1;
                    Ok((Some(name), i))
                }
            },
        }
    }
}

/// `[<<label>>] [DECLARE declarations] BEGIN statements [EXCEPTION handlers] END [label]`
pub open spec fn block(p: Source, i: int) -> Result<(tree::Block, int), Failure>
    decreases p.lex.len() - i, 24int,
{
    match sql::within(label(p, i), i, p) {
        Err(e) => Err(e),
        Ok((label, i)) => {
            match sql::within(block_decls(p, i), i, p) {
                Err(e) => Err(e),
                Ok((decls, i)) => {
                    sql::within(block_body(p, i, decls), i + 1, p)
                },
            }
        },
    }
}

/// `BEGIN ... END [name]`, after the declarations.
pub open spec fn block_body(p: Source, i: int, decls: Seq<tree::Decl>) -> Result<(tree::Block, int), Failure>
    decreases p.lex.len() - i, 23int,
{
    if !sql::is_kw(p, i, "BEGIN"@) {
        Err(sql::expected("BEGIN"@))
    } else {
        let i = i + 1;
        match sql::within(block_parts(p, i), i, p) {
            Err(e) => Err(e),
            Ok((parts, i)) => {
                match sql::within(end_of_block(p, i), i + 1, p) {
                    Err(e) => Err(e),
                    Ok((end, i)) => {
                        Ok((tree::Block { decls, body: parts.0, handlers: parts.1 }, i))
                    },
                }
            },
        }
    }
}

/// Statements and handlers.
pub open spec fn block_parts(p: Source, i: int) -> Result<((Seq<tree::Stmt>, Seq<tree::Handler>), int), Failure>
    decreases p.lex.len() - i, 32int,
{
    match sql::within(statements(p, i, Seq::empty()), i, p) {
        Err(e) => Err(e),
        Ok((body, i)) => {
            match sql::within(block_parts_handlers(p, i), i, p) {
                Err(e) => Err(e),
                Ok((handlers, i)) => {
                    Ok(((body, handlers), i))
                },
            }
        },
    }
}

/// `END [name]`
pub open spec fn end_of_block(p: Source, i: int) -> Result<((), int), Failure>
    decreases p.lex.len() - i, 0int,
{
    if !sql::is_kw(p, i, "END"@) {
        Err(sql::expected("END"@))
    } else {
        let i = i + 1;
        let i = if sql::is_ident(p, i) {
            i + 1
        } else {
            i
        };
        Ok(((), i))
    }
}

pub open spec fn handlers(p: Source, i: int, acc: Seq<tree::Handler>) -> Result<(Seq<tree::Handler>, int), Failure>
    decreases p.lex.len() - i, 38int,
{
    if !sql::is_kw(p, i, "WHEN"@) {
        Ok((acc, i))
    } else {
        match sql::within(exception_names(p, i + 1, Seq::empty()), i + 2, p) {
            Err(e) => Err(e),
            Ok((exceptions, i)) => {
                if !sql::is_kw(p, i, "THEN"@) {
                    Err(error::failure(905, "missing keyword"@))
                } else {
                    let i = i + 1;
                    match sql::within(statements(p, i, Seq::empty()), i, p) {
                        Err(e) => Err(e),
                        Ok((body, i)) => {
                            handlers(p, i, acc.push(tree::Handler { exceptions, body }))
                        },
                    }
                }
            },
        }
    }
}

pub open spec fn exception_names(p: Source, i: int, acc: Seq<Seq<char>>) -> Result<(Seq<Seq<char>>, int), Failure>
    decreases p.lex.len() - i, 5int,
{
    match sql::within(sql::dotted_name(p, i), i + 1, p) {
        Err(e) => Err(e),
        Ok((n, i)) => {
            if !sql::is_kw(p, i, "OR"@) {
                Ok((acc.push(n), i))
            } else {
                let i = i + 1;
                exception_names(p, i, acc.push(n))
            }
        },
    }
}

/// `CALL name(args) [INTO :bind]`, run as a block.
pub open spec fn call_statement(p: Source, i: int) -> Result<(tree::Block, int), Failure>
    decreases p.lex.len() - i, 37int,
{
    if !sql::is_kw(p, i, "CALL"@) {
        Err(error::failure(905, "missing keyword"@))
    } else {
        let i = i + 1;
        match sql::within(sql::dotted_name(p, i), i + 1, p) {
            Err(e) => Err(e),
            Ok((name, i)) => {
                match sql::within(args(p, i), i, p) {
                    Err(e) => Err(e),
                    Ok((args, i)) => {
                        if sql::is_kw(p, i, "INTO"@) {
                            if !sql::is_bind(p, i + 1) {
                                Err(sql::expected("a bind variable"@))
                            } else {
                                let n = sql::bind_at(p, i + 1);
                                let i = i + 2;
                                Ok((one_statement(tree::Stmt::Assign { target: tree::Target::Bind(n), value: tree::Expr::Function { name, args: arg_values(args), distinct: false } }), i))
                            }
                        } else {
                            Ok((one_statement(tree::Stmt::Call { name, args }), i))
                        }
                    },
                }
            },
        }
    }
}

/// Declarations, up to BEGIN.
pub open spec fn declarations(p: Source, i: int, acc: Seq<tree::Decl>) -> Result<(Seq<tree::Decl>, int), Failure>
    decreases p.lex.len() - i, 37int,
{
    if sql::is_kw(p, i, "BEGIN"@) {
        Ok((acc, i))
    } else {
        if i >= p.lex.len() {
            Err(sql::expected("BEGIN"@))
        } else {
            match sql::within(declaration(p, i), i + 1, p) {
                Err(e) => Err(e),
                Ok((d, i)) => {
                    match d {
                        Some(d) => {
                            declarations(p, i, acc.push(d))
                        },
                        None => {
                            declarations(p, i, acc)
                        },
                    }
                },
            }
        }
    }
}

/// One declaration. Pragmas such as AUTONOMOUS_TRANSACTION and forward declarations
/// leave nothing behind.
pub open spec fn declaration(p: Source, i: int) -> Result<(Option<tree::Decl>, int), Failure>
    decreases p.lex.len() - i, 36int,
{
    if sql::is_kw(p, i, "PROCEDURE"@) || sql::is_kw(p, i, "FUNCTION"@) {
        sql::within(local_routine(p, i), i + 1, p)
    } else if sql::is_kw(p, i, "CURSOR"@) {
        match sql::within(cursor_decl(p, i + 1), i + 2, p) {
            Err(e) => Err(e),
            Ok((c, i)) => {
                Ok((Some(tree::Decl::Cursor(c)), i))
            },
        }
    } else if sql::is_kw(p, i, "PRAGMA"@) && sql::is_kw(p, i + 1, "EXCEPTION_INIT"@) {
        match sql::within(exception_init(p, i + 2), i + 3, p) {
            Err(e) => Err(e),
            Ok((d, i)) => {
                Ok((Some(d), i))
            },
        }
    } else if sql::is_kw(p, i, "PRAGMA"@) {
        match sql::within(sql::ident(p, i + 1), i + 2, p) {
            Err(e) => Err(e),
            Ok((pragma, i)) => {
                match sql::within(skip_parens(p, i), i, p) {
                    Err(e) => Err(e),
                    Ok((parens, i)) => {
                        if !sql::is_sym(p, i, ";"@) {
                            Err(sql::expected(";"@))
                        } else {
                            let i = i + 1;
                            Ok((None, i))
                        }
                    },
                }
            },
        }
    } else {
        if sql::is_kw(p, i, "TYPE"@) || sql::is_kw(p, i, "SUBTYPE"@) {
            Err(sql::unsupported("user-defined PL/SQL types"@))
        } else {
            match sql::within(variable(p, i), i + 1, p) {
                Err(e) => Err(e),
                Ok((d, i)) => {
                    Ok((Some(d), i))
                },
            }
        }
    }
}

pub open spec fn local_routine(p: Source, i: int) -> Result<(Option<tree::Decl>, int), Failure>
    decreases p.lex.len() - i, 35int,
{
    match sql::within(routine_signature(p, i), i + 1, p) {
        Err(e) => Err(e),
        Ok((head, i)) => {
            if sql::is_sym(p, i, ";"@) {
                let i = i + 1;
                Ok((None, i))
            } else {
                match sql::within(routine_body(p, i, head), i + 1, p) {
                    Err(e) => Err(e),
                    Ok((r, i)) => {
                        if !sql::is_sym(p, i, ";"@) {
                            Err(sql::expected(";"@))
                        } else {
                            let i = i + 1;
                            Ok((Some(tree::Decl::Routine(Box::new(r))), i))
                        }
                    },
                }
            }
        },
    }
}

pub open spec fn cursor_decl(p: Source, i: int) -> Result<(tree::CursorDecl, int), Failure>
    decreases p.lex.len() - i, 35int,
{
    match sql::within(sql::ident(p, i), i + 1, p) {
        Err(e) => Err(e),
        Ok((name, i)) => {
            match sql::within(params(p, i), i, p) {
                Err(e) => Err(e),
                Ok((params, i)) => {
                    if sql::is_kw(p, i, "RETURN"@) {
                        Err(sql::unsupported("typed cursors"@))
                    } else {
                        if !sql::is_kw(p, i, "IS"@) {
                            Err(error::failure(905, "missing keyword"@))
                        } else {
                            let i = i + 1;
                            match sql::within(sql::query(p, i), i + 1, p) {
                                Err(e) => Err(e),
                                Ok((query, i)) => {
                                    if !sql::is_sym(p, i, ";"@) {
                                        Err(sql::expected(";"@))
                                    } else {
                                        let i = i + 1;
                                        Ok((tree::CursorDecl { name, params, query }, i))
                                    }
                                },
                            }
                        }
                    }
                },
            }
        },
    }
}

pub open spec fn exception_init(p: Source, i: int) -> Result<(tree::Decl, int), Failure>
    decreases p.lex.len() - i, 35int,
{
    if !sql::is_sym(p, i, "("@) {
        Err(error::failure(906, "missing left parenthesis"@))
    } else {
        let i = i + 1;
        match sql::within(sql::ident(p, i), i + 1, p) {
            Err(e) => Err(e),
            Ok((name, i)) => {
                if !sql::is_sym(p, i, ","@) {
                    Err(error::failure(917, "missing comma"@))
                } else {
                    let i = i + 1;
                    match sql::within(integer(p, i), i + 1, p) {
                        Err(e) => Err(e),
                        Ok((code, i)) => {
                            if !sql::is_sym(p, i, ")"@) {
                                Err(error::failure(907, "missing right parenthesis"@))
                            } else {
                                let i = i + 1;
                                if !sql::is_sym(p, i, ";"@) {
                                    Err(sql::expected(";"@))
                                } else {
                                    let i = i + 1;
                                    Ok((tree::Decl::ExceptionInit { name, code: magnitude(code) }, i))
                                }
                            }
                        },
                    }
                }
            },
        }
    }
}

/// A number of at most nine digits, with or without a sign.
pub open spec fn integer(p: Source, i: int) -> Result<(int, int), Failure>
    decreases p.lex.len() - i, 3int,
{
    let negative = sql::is_sym(p, i, "-"@);
    let i = if negative {
        i + 1
    } else {
        i
    };
    let n = sql::small_at(p, i);
    match n {
        Some(n) => {
            let i = i + 1;
            Ok((if negative { -n } else { n }, i))
        },
        None => {
            Err(sql::expected("an integer"@))
        },
    }
}

pub open spec fn variable(p: Source, i: int) -> Result<(tree::Decl, int), Failure>
    decreases p.lex.len() - i, 35int,
{
    match sql::within(sql::ident(p, i), i + 1, p) {
        Err(e) => Err(e),
        Ok((name, i)) => {
            if sql::is_kw(p, i, "EXCEPTION"@) {
                let i = i + 1;
                if !sql::is_sym(p, i, ";"@) {
                    Err(sql::expected(";"@))
                } else {
                    let i = i + 1;
                    Ok((tree::Decl::Exception(name), i))
                }
            } else {
                sql::within(typed_variable(p, i, name), i + 1, p)
            }
        },
    }
}

/// A variable or constant, behind its name.
pub open spec fn typed_variable(p: Source, i: int, name: Seq<char>) -> Result<(tree::Decl, int), Failure>
    decreases p.lex.len() - i, 35int,
{
    let constant = sql::is_kw(p, i, "CONSTANT"@);
    let i = if constant {
        i + 1
    } else {
        i
    };
    match sql::within(type_ref(p, i, false), i + 1, p) {
        Err(e) => Err(e),
        Ok((ty, i)) => {
            match sql::within(not_null(p, i), i, p) {
                Err(e) => Err(e),
                Ok((not_null, i)) => {
                    match sql::within(default_clause(p, i), i, p) {
                        Err(e) => Err(e),
                        Ok((default, i)) => {
                            if (constant || not_null) && default is None {
                                Err(sql::pls(218, "a variable declared NOT NULL must have an initialization assignment"@))
                            } else {
                                if !sql::is_sym(p, i, ";"@) {
                                    Err(sql::expected(";"@))
                                } else {
                                    let i = i + 1;
                                    Ok((tree::Decl::Var(tree::VarDecl { name, ty, constant, not_null, default }), i))
                                }
                            }
                        },
                    }
                },
            }
        },
    }
}

/// `[NOT NULL]`
pub open spec fn not_null(p: Source, i: int) -> Result<(bool, int), Failure>
    decreases p.lex.len() - i, 0int,
{
    if !sql::is_kw(p, i, "NOT"@) {
        Ok((false, i))
    } else {
        let i = i + 1;
        if !sql::is_kw(p, i, "NULL"@) {
            Err(error::failure(905, "missing keyword"@))
        } else {
            let i = i + 1;
            Ok((true, i))
        }
    }
}

/// A PL/SQL type. Parameters may leave out lengths (`VARCHAR2` alone).
pub open spec fn type_ref(p: Source, i: int, param: bool) -> Result<(tree::TypeRef, int), Failure>
    decreases p.lex.len() - i, 30int,
{
    if sql::is_ident(p, i) && (sql::is_sym(p, i + 1, "%"@) || sql::is_sym(p, i + 1, "."@)) {
        sql::within(anchored_type(p, i), i + 1, p)
    } else {
        if !sql::is_word(p, i) {
            Err(error::failure(902, "invalid datatype"@))
        } else {
            if sql::is_kw(p, i, "BOOLEAN"@) {
                let i = i + 1;
                Ok((tree::TypeRef::Boolean, i))
            } else if sql::is_integer_type(sql::name_at(p, i)) {
                let i = i + 1;
                Ok((tree::TypeRef::Integer, i))
            } else if sql::is_kw(p, i, "STRING"@) {
                match sql::within(length(p, i + 1), i + 1, p) {
                    Err(e) => Err(e),
                    Ok((n, i)) => {
                        Ok((tree::TypeRef::Sql(SqlType::Varchar2(or_longest(n))), i))
                    },
                }
            } else if (sql::is_kw(p, i, "VARCHAR2"@) || sql::is_kw(p, i, "VARCHAR"@) || sql::is_kw(p, i, "NVARCHAR2"@)) && !sql::is_sym(p, i + 1, "("@) {
                if !param {
                    Err(sql::pls(215, "String length constraints must be in range (1 .. 32767)"@))
                } else {
                    let i = i + 1;
                    Ok((tree::TypeRef::Sql(SqlType::Varchar2(32767)), i))
                }
            } else if (sql::is_kw(p, i, "CHAR"@) || sql::is_kw(p, i, "NCHAR"@)) && !sql::is_sym(p, i + 1, "("@) {
                if param {
                    let i = i + 1;
                    Ok((tree::TypeRef::Sql(SqlType::Varchar2(32767)), i))
                } else {
                    let i = i + 1;
                    Ok((tree::TypeRef::Sql(SqlType::Char(1)), i))
                }
            } else {
                if sql::is_kw(p, i, "SYS_REFCURSOR"@) || sql::is_kw(p, i, "REF"@) {
                    Err(sql::unsupported("REF CURSOR"@))
                } else {
                    match sql::within(data_type(p, i), i + 1, p) {
                        Err(e) => Err(e),
                        Ok((t, i)) => {
                            Ok((tree::TypeRef::Sql(t), i))
                        },
                    }
                }
            }
        }
    }
}

/// `variable%TYPE`, `table.column%TYPE`, `table%ROWTYPE` or `cursor%ROWTYPE`.
pub open spec fn anchored_type(p: Source, i: int) -> Result<(tree::TypeRef, int), Failure>
    decreases p.lex.len() - i, 29int,
{
    match sql::within(sql::ident(p, i), i + 1, p) {
        Err(e) => Err(e),
        Ok((first, i)) => {
            match sql::within(anchored_type_second(p, i), i, p) {
                Err(e) => Err(e),
                Ok((second, i)) => {
                    if !sql::is_sym(p, i, "%"@) {
                        Err(sql::expected("%TYPE or %ROWTYPE"@))
                    } else {
                        let i = i + 1;
                        match sql::within(sql::ident(p, i), i + 1, p) {
                            Err(e) => Err(e),
                            Ok((attr, i)) => {
                                if attr == "TYPE"@ {
                                    match second {
                                        Some(column) => {
                                            Ok((tree::TypeRef::TypeOf { table: Some(first), name: column }, i))
                                        },
                                        None => {
                                            Ok((tree::TypeRef::TypeOf { table: None, name: first }, i))
                                        },
                                    }
                                } else if attr == "ROWTYPE"@ {
                                    match second {
                                        Some(table) => {
                                            Ok((tree::TypeRef::RowType(table), i))
                                        },
                                        None => {
                                            Ok((tree::TypeRef::RowType(first), i))
                                        },
                                    }
                                } else {
                                    Err(sql::expected("%TYPE or %ROWTYPE"@))
                                }
                            },
                        }
                    }
                },
            }
        },
    }
}

/// `[(length)]`
pub open spec fn length(p: Source, i: int) -> Result<(Option<u32>, int), Failure>
    decreases p.lex.len() - i, 2int,
{
    if !sql::is_sym(p, i, "("@) {
        Ok((None, i))
    } else {
        let i = i + 1;
        let n = sql::small_at(p, i);
        match n {
            Some(n) => {
                let i = i + 1;
                let i = if sql::is_kw(p, i, "BYTE"@) || sql::is_kw(p, i, "CHAR"@) {
                    i + 1
                } else {
                    i
                };
                if !sql::is_sym(p, i, ")"@) {
                    Err(error::failure(907, "missing right parenthesis"@))
                } else {
                    let i = i + 1;
                    Ok((Some(n as u32), i))
                }
            },
            None => {
                Err(error::failure(910, "specified length too long for its datatype"@))
            },
        }
    }
}

/// A type of SQL.
pub open spec fn data_type(p: Source, i: int) -> Result<(SqlType, int), Failure>
    decreases p.lex.len() - i, 28int,
{
    if sql::is_kw(p, i, "NUMBER"@) || sql::is_kw(p, i, "NUMERIC"@) || sql::is_kw(p, i, "DECIMAL"@) {
        sql::within(number_type(p, i + 1), i + 1, p)
    } else if sql::is_kw(p, i, "INTEGER"@) || sql::is_kw(p, i, "INT"@) || sql::is_kw(p, i, "SMALLINT"@) {
        let i = i + 1;
        Ok((SqlType::Number { precision: 38, scale: 0 }, i))
    } else if sql::is_kw(p, i, "DATE"@) {
        let i = i + 1;
        Ok((SqlType::Date, i))
    } else if sql::is_kw(p, i, "TIMESTAMP"@) {
        match sql::within(length(p, i + 1), i + 1, p) {
            Err(e) => Err(e),
            Ok((n, i)) => {
                Ok((SqlType::Timestamp(or_digits(n)), i))
            },
        }
    } else if sql::is_kw(p, i, "VARCHAR2"@) || sql::is_kw(p, i, "VARCHAR"@) || sql::is_kw(p, i, "NVARCHAR2"@) {
        match sql::within(length(p, i + 1), i + 1, p) {
            Err(e) => Err(e),
            Ok((n, i)) => {
                match n {
                    Some(n) => {
                        Ok((SqlType::Varchar2(n), i))
                    },
                    None => {
                        Err(error::failure(906, "missing left parenthesis"@))
                    },
                }
            },
        }
    } else if sql::is_kw(p, i, "CHAR"@) || sql::is_kw(p, i, "NCHAR"@) {
        match sql::within(length(p, i + 1), i + 1, p) {
            Err(e) => Err(e),
            Ok((n, i)) => {
                match n {
                    Some(n) => {
                        Ok((SqlType::Char(n), i))
                    },
                    None => {
                        Ok((SqlType::Char(1), i))
                    },
                }
            },
        }
    } else {
        Err(error::failure(902, "invalid datatype"@))
    }
}

/// `[(precision [, scale])]`
pub open spec fn number_type(p: Source, i: int) -> Result<(SqlType, int), Failure>
    decreases p.lex.len() - i, 27int,
{
    if !sql::is_sym(p, i, "("@) {
        Ok((SqlType::Number { precision: 0, scale: 0 }, i))
    } else {
        let i = i + 1;
        match sql::within(integer(p, i), i + 1, p) {
            Err(e) => Err(e),
            Ok((precision, i)) => {
                if !(1 <= precision <= 38) {
                    Err(error::failure(1727, "numeric precision specifier is out of range (1 to 38)"@))
                } else {
                    match sql::within(number_type_scale(p, i), i, p) {
                        Err(e) => Err(e),
                        Ok((scale, i)) => {
                            if !(-84 <= scale <= 127) {
                                Err(error::failure(1728, "numeric scale specifier is out of range (-84 to 127)"@))
                            } else {
                                if !sql::is_sym(p, i, ")"@) {
                                    Err(error::failure(907, "missing right parenthesis"@))
                                } else {
                                    let i = i + 1;
                                    Ok((SqlType::Number { precision: precision as u8, scale: scale as i8 }, i))
                                }
                            }
                        },
                    }
                }
            },
        }
    }
}

/// A full `PROCEDURE` or `FUNCTION` definition, as in CREATE PROCEDURE.
pub open spec fn routine(p: Source, i: int) -> Result<(tree::Routine, int), Failure>
    decreases p.lex.len() - i, 43int,
{
    match sql::within(routine_signature(p, i), i + 1, p) {
        Err(e) => Err(e),
        Ok((r, i)) => {
            sql::within(routine_body(p, i, r), i + 1, p)
        },
    }
}

pub open spec fn routine_signature(p: Source, i: int) -> Result<(tree::Routine, int), Failure>
    decreases p.lex.len() - i, 34int,
{
    match sql::within(routine_word(p, i), i + 1, p) {
        Err(e) => Err(e),
        Ok((function, i)) => {
            match sql::within(sql::object_name(p, i), i + 1, p) {
                Err(e) => Err(e),
                Ok((name, i)) => {
                    match sql::within(params(p, i), i, p) {
                        Err(e) => Err(e),
                        Ok((params, i)) => {
                            if function {
                                if !sql::is_kw(p, i, "RETURN"@) {
                                    Err(error::failure(905, "missing keyword"@))
                                } else {
                                    let i = i + 1;
                                    match sql::within(type_ref(p, i, true), i + 1, p) {
                                        Err(e) => Err(e),
                                        Ok((ty, i)) => {
                                            Ok((tree::Routine { name, params, returns: Some(ty), block: empty_block() }, i))
                                        },
                                    }
                                }
                            } else {
                                Ok((tree::Routine { name, params, returns: None, block: empty_block() }, i))
                            }
                        },
                    }
                },
            }
        },
    }
}

/// FUNCTION or PROCEDURE.
pub open spec fn routine_word(p: Source, i: int) -> Result<(bool, int), Failure>
    decreases p.lex.len() - i, 0int,
{
    if sql::is_kw(p, i, "FUNCTION"@) {
        let i = i + 1;
        Ok((true, i))
    } else {
        if !sql::is_kw(p, i, "PROCEDURE"@) {
            Err(error::failure(905, "missing keyword"@))
        } else {
            let i = i + 1;
            Ok((false, i))
        }
    }
}

pub open spec fn routine_body(p: Source, i: int, head: tree::Routine) -> Result<(tree::Routine, int), Failure>
    decreases p.lex.len() - i, 42int,
{
    match sql::within(routine_options(p, i, 0), i, p) {
        Err(e) => Err(e),
        Ok((options, i)) => {
            if !sql::is_kw(p, i, "IS"@) && !sql::is_kw(p, i, "AS"@) {
                Err(sql::expected("IS or AS"@))
            } else {
                let i = i + 1;
                if sql::is_kw(p, i, "LANGUAGE"@) || sql::is_kw(p, i, "EXTERNAL"@) {
                    Err(sql::unsupported("external procedures"@))
                } else {
                    match sql::within(declarations(p, i, Seq::empty()), i, p) {
                        Err(e) => Err(e),
                        Ok((decls, i)) => {
                            match sql::within(block_body(p, i, decls), i + 1, p) {
                                Err(e) => Err(e),
                                Ok((block, i)) => {
                                    Ok((tree::Routine { name: head.name, params: head.params, returns: head.returns, block }, i))
                                },
                            }
                        },
                    }
                }
            }
        },
    }
}

/// Options before IS or AS.
pub open spec fn routine_options(p: Source, i: int, n: int) -> Result<(int, int), Failure>
    decreases p.lex.len() - i, 5int,
{
    if sql::is_kw(p, i, "AUTHID"@) {
        let i = i + 1;
        if i >= p.lex.len() {
            Err(sql::expected("IS or AS"@))
        } else {
            let i = i + 1;
            routine_options(p, i, n)
        }
    } else if sql::is_kw(p, i, "DETERMINISTIC"@) || sql::is_kw(p, i, "PARALLEL_ENABLE"@) || sql::is_kw(p, i, "RESULT_CACHE"@) {
        match sql::within(skip_parens(p, i + 1), i + 1, p) {
            Err(e) => Err(e),
            Ok((parens, i)) => {
                routine_options(p, i, n)
            },
        }
    } else {
        if sql::is_kw(p, i, "PIPELINED"@) {
            Err(sql::unsupported("pipelined functions"@))
        } else {
            Ok((n, i))
        }
    }
}

pub open spec fn params(p: Source, i: int) -> Result<(Seq<tree::Param>, int), Failure>
    decreases p.lex.len() - i, 34int,
{
    if !sql::is_sym(p, i, "("@) {
        Ok((Seq::empty(), i))
    } else {
        match sql::within(param_list(p, i + 1, Seq::empty()), i + 2, p) {
            Err(e) => Err(e),
            Ok((params, i)) => {
                if !sql::is_sym(p, i, ")"@) {
                    Err(error::failure(907, "missing right parenthesis"@))
                } else {
                    let i = i + 1;
                    Ok((params, i))
                }
            },
        }
    }
}

pub open spec fn param_list(p: Source, i: int, acc: Seq<tree::Param>) -> Result<(Seq<tree::Param>, int), Failure>
    decreases p.lex.len() - i, 33int,
{
    match sql::within(param(p, i), i + 1, p) {
        Err(e) => Err(e),
        Ok((x, i)) => {
            if !sql::is_sym(p, i, ","@) {
                Ok((acc.push(x), i))
            } else {
                let i = i + 1;
                param_list(p, i, acc.push(x))
            }
        },
    }
}

pub open spec fn param(p: Source, i: int) -> Result<(tree::Param, int), Failure>
    decreases p.lex.len() - i, 32int,
{
    match sql::within(sql::ident(p, i), i + 1, p) {
        Err(e) => Err(e),
        Ok((name, i)) => {
            let out = sql::is_kw(p, i, "OUT"@);
            let i = if out {
                i + 1
            } else {
                i
            };
            let in_ = !out && sql::is_kw(p, i, "IN"@);
            let i = if in_ {
                i + 1
            } else {
                i
            };
            let in_out = in_ && sql::is_kw(p, i, "OUT"@);
            let i = if in_out {
                i + 1
            } else {
                i
            };
            let mode = if out { ParamMode::Out } else if in_out { ParamMode::InOut } else { ParamMode::In };
            let i = if sql::is_kw(p, i, "NOCOPY"@) {
                i + 1
            } else {
                i
            };
            match sql::within(type_ref(p, i, true), i + 1, p) {
                Err(e) => Err(e),
                Ok((ty, i)) => {
                    match sql::within(default_clause(p, i), i, p) {
                        Err(e) => Err(e),
                        Ok((default, i)) => {
                            Ok((tree::Param { name, mode, ty, default }, i))
                        },
                    }
                },
            }
        },
    }
}

/// `(arg, name => arg, ...)`, or nothing.
pub open spec fn args(p: Source, i: int) -> Result<(Seq<tree::Arg>, int), Failure>
    decreases p.lex.len() - i, 34int,
{
    if !sql::is_sym(p, i, "("@) {
        Ok((Seq::empty(), i))
    } else if sql::is_sym(p, i + 1, ")"@) {
        let i = i + 2;
        Ok((Seq::empty(), i))
    } else {
        match sql::within(arg_list(p, i + 1, Seq::empty()), i + 2, p) {
            Err(e) => Err(e),
            Ok((args, i)) => {
                if !sql::is_sym(p, i, ")"@) {
                    Err(error::failure(907, "missing right parenthesis"@))
                } else {
                    let i = i + 1;
                    Ok((args, i))
                }
            },
        }
    }
}

pub open spec fn arg_list(p: Source, i: int, acc: Seq<tree::Arg>) -> Result<(Seq<tree::Arg>, int), Failure>
    decreases p.lex.len() - i, 33int,
{
    match sql::within(arg(p, i), i + 1, p) {
        Err(e) => Err(e),
        Ok((x, i)) => {
            if !sql::is_sym(p, i, ","@) {
                Ok((acc.push(x), i))
            } else {
                let i = i + 1;
                arg_list(p, i, acc.push(x))
            }
        },
    }
}

pub open spec fn arg(p: Source, i: int) -> Result<(tree::Arg, int), Failure>
    decreases p.lex.len() - i, 32int,
{
    if sql::is_ident(p, i) && sql::is_sym(p, i + 1, "=>"@) {
        let name = sql::name_at(p, i);
        match sql::within(sql::expr(p, i + 2), i + 3, p) {
            Err(e) => Err(e),
            Ok((value, i)) => {
                Ok((tree::Arg { name: Some(name), value }, i))
            },
        }
    } else {
        match sql::within(sql::expr(p, i), i + 1, p) {
            Err(e) => Err(e),
            Ok((value, i)) => {
                Ok((tree::Arg { name: None, value }, i))
            },
        }
    }
}

/// Statements up to END, EXCEPTION, ELSIF, ELSE or WHEN.
pub open spec fn statements(p: Source, i: int, acc: Seq<tree::Stmt>) -> Result<(Seq<tree::Stmt>, int), Failure>
    decreases p.lex.len() - i, 31int,
{
    if i >= p.lex.len() {
        Err(sql::expected("END"@))
    } else {
        if ends_list(p, i) {
            if acc.len() == 0 {
                Err(sql::expected("a statement"@))
            } else {
                Ok((acc, i))
            }
        } else {
            match sql::within(plsql_statement(p, i), i + 1, p) {
                Err(e) => Err(e),
                Ok((s, i)) => {
                    statements(p, i, acc.push(s))
                },
            }
        }
    }
}

/// A statement with its label and its semicolon.
pub open spec fn plsql_statement(p: Source, i: int) -> Result<(tree::Stmt, int), Failure>
    decreases p.lex.len() - i, 30int,
{
    match sql::within(label(p, i), i, p) {
        Err(e) => Err(e),
        Ok((label, i)) => {
            match sql::within(bare_statement(p, i, label), i + 1, p) {
                Err(e) => Err(e),
                Ok((stmt, i)) => {
                    if !sql::is_sym(p, i, ";"@) {
                        Err(sql::expected(";"@))
                    } else {
                        let i = i + 1;
                        Ok((stmt, i))
                    }
                },
            }
        },
    }
}

/// A statement without its label and its semicolon.
pub open spec fn bare_statement(p: Source, i: int, label: Option<Seq<char>>) -> Result<(tree::Stmt, int), Failure>
    decreases p.lex.len() - i, 29int,
{
    if i >= p.lex.len() {
        Err(sql::expected("a statement"@))
    } else {
        if sql::is_bind(p, i) {
            sql::within(bind_assignment(p, i), i + 1, p)
        } else if sql::is_sym(p, i, "("@) || sql::is_kw(p, i, "SELECT"@) || sql::is_kw(p, i, "WITH"@) {
            sql::within(select_into(p, i), i + 1, p)
        } else {
            if !sql::is_word(p, i) {
                Err(sql::expected("a statement"@))
            } else {
                if sql::is_kw(p, i, "NULL"@) || sql::is_kw(p, i, "IF"@) || sql::is_kw(p, i, "CASE"@) || sql::is_kw(p, i, "BEGIN"@) || sql::is_kw(p, i, "DECLARE"@) {
                    sql::within(plain_statement(p, i), i + 1, p)
                } else if sql::is_kw(p, i, "LOOP"@) || sql::is_kw(p, i, "WHILE"@) || sql::is_kw(p, i, "FOR"@) {
                    sql::within(loop_statement(p, i, label), i + 1, p)
                } else if sql::is_kw(p, i, "EXIT"@) || sql::is_kw(p, i, "CONTINUE"@) {
                    sql::within(jump(p, i), i + 1, p)
                } else if sql::is_kw(p, i, "RETURN"@) || sql::is_kw(p, i, "RAISE"@) {
                    sql::within(leave(p, i), i + 1, p)
                } else if sql::is_kw(p, i, "OPEN"@) || sql::is_kw(p, i, "FETCH"@) || sql::is_kw(p, i, "CLOSE"@) {
                    sql::within(cursor_statement(p, i), i + 1, p)
                } else {
                    sql::within(sql_or_call(p, i), i + 1, p)
                }
            }
        }
    }
}

/// NULL, IF, CASE or a block.
pub open spec fn plain_statement(p: Source, i: int) -> Result<(tree::Stmt, int), Failure>
    decreases p.lex.len() - i, 28int,
{
    if sql::is_kw(p, i, "NULL"@) {
        let i = i + 1;
        Ok((tree::Stmt::Null, i))
    } else if sql::is_kw(p, i, "IF"@) {
        sql::within(if_statement(p, i + 1), i + 2, p)
    } else if sql::is_kw(p, i, "CASE"@) {
        sql::within(case_statement(p, i + 1), i + 2, p)
    } else {
        match sql::within(block(p, i), i + 1, p) {
            Err(e) => Err(e),
            Ok((b, i)) => {
                Ok((tree::Stmt::Block(b), i))
            },
        }
    }
}

/// LOOP, WHILE or FOR.
pub open spec fn loop_statement(p: Source, i: int, label: Option<Seq<char>>) -> Result<(tree::Stmt, int), Failure>
    decreases p.lex.len() - i, 28int,
{
    if sql::is_kw(p, i, "WHILE"@) {
        match sql::within(sql::expr(p, i + 1), i + 2, p) {
            Err(e) => Err(e),
            Ok((cond, i)) => {
                match sql::within(loop_body(p, i), i + 1, p) {
                    Err(e) => Err(e),
                    Ok((body, i)) => {
                        Ok((tree::Stmt::While { label, cond, body }, i))
                    },
                }
            },
        }
    } else if sql::is_kw(p, i, "FOR"@) {
        sql::within(for_statement(p, i + 1, label), i + 2, p)
    } else {
        match sql::within(loop_body(p, i), i + 1, p) {
            Err(e) => Err(e),
            Ok((body, i)) => {
                Ok((tree::Stmt::Loop { label, body }, i))
            },
        }
    }
}

/// RETURN or RAISE.
pub open spec fn leave(p: Source, i: int) -> Result<(tree::Stmt, int), Failure>
    decreases p.lex.len() - i, 28int,
{
    if sql::is_kw(p, i, "RETURN"@) {
        if sql::is_sym(p, i + 1, ";"@) {
            let i = i + 1;
            Ok((tree::Stmt::Return(None), i))
        } else {
            match sql::within(sql::expr(p, i + 1), i + 2, p) {
                Err(e) => Err(e),
                Ok((e, i)) => {
                    Ok((tree::Stmt::Return(Some(e)), i))
                },
            }
        }
    } else {
        if !sql::is_kw(p, i, "RAISE"@) {
            Err(error::failure(905, "missing keyword"@))
        } else {
            let i = i + 1;
            if sql::is_sym(p, i, ";"@) {
                Ok((tree::Stmt::Raise(None), i))
            } else {
                match sql::within(sql::dotted_name(p, i), i + 1, p) {
                    Err(e) => Err(e),
                    Ok((name, i)) => {
                        Ok((tree::Stmt::Raise(Some(name)), i))
                    },
                }
            }
        }
    }
}

/// OPEN, FETCH or CLOSE.
pub open spec fn cursor_statement(p: Source, i: int) -> Result<(tree::Stmt, int), Failure>
    decreases p.lex.len() - i, 28int,
{
    if sql::is_kw(p, i, "OPEN"@) {
        match sql::within(sql::ident(p, i + 1), i + 2, p) {
            Err(e) => Err(e),
            Ok((cursor, i)) => {
                if sql::is_kw(p, i, "FOR"@) {
                    Err(sql::unsupported("REF CURSOR"@))
                } else {
                    match sql::within(args(p, i), i, p) {
                        Err(e) => Err(e),
                        Ok((args, i)) => {
                            Ok((tree::Stmt::Open { cursor, args: arg_values(args) }, i))
                        },
                    }
                }
            },
        }
    } else if sql::is_kw(p, i, "FETCH"@) {
        match sql::within(sql::ident(p, i + 1), i + 2, p) {
            Err(e) => Err(e),
            Ok((cursor, i)) => {
                if sql::is_kw(p, i, "BULK"@) {
                    Err(sql::unsupported("BULK COLLECT"@))
                } else {
                    if !sql::is_kw(p, i, "INTO"@) {
                        Err(error::failure(905, "missing keyword"@))
                    } else {
                        let i = i + 1;
                        match sql::within(targets(p, i), i + 1, p) {
                            Err(e) => Err(e),
                            Ok((into, i)) => {
                                Ok((tree::Stmt::Fetch { cursor, into }, i))
                            },
                        }
                    }
                }
            },
        }
    } else {
        if !sql::is_kw(p, i, "CLOSE"@) {
            Err(error::failure(905, "missing keyword"@))
        } else {
            let i = i + 1;
            match sql::within(sql::ident(p, i), i + 1, p) {
                Err(e) => Err(e),
                Ok((cursor, i)) => {
                    Ok((tree::Stmt::Close { cursor }, i))
                },
            }
        }
    }
}

/// SQL, an assignment or a call.
pub open spec fn sql_or_call(p: Source, i: int) -> Result<(tree::Stmt, int), Failure>
    decreases p.lex.len() - i, 28int,
{
    if sql::is_kw(p, i, "INSERT"@) || sql::is_kw(p, i, "UPDATE"@) || sql::is_kw(p, i, "DELETE"@) || sql::is_kw(p, i, "COMMIT"@) || sql::is_kw(p, i, "ROLLBACK"@) {
        match sql::within(sql::dml(p, i), i + 1, p) {
            Err(e) => Err(e),
            Ok((stmt, i)) => {
                Ok((tree::Stmt::Sql { stmt, into: Seq::empty() }, i))
            },
        }
    } else {
        if sql::is_kw(p, i, "SAVEPOINT"@) {
            Err(sql::unsupported("savepoint in PL/SQL"@))
        } else {
            if sql::is_kw(p, i, "MERGE"@) {
                Err(sql::unsupported("merge in PL/SQL"@))
            } else {
                if sql::is_kw(p, i, "LOCK"@) {
                    Err(sql::unsupported("lock in PL/SQL"@))
                } else {
                    if sql::is_kw(p, i, "SET"@) {
                        Err(sql::unsupported("set in PL/SQL"@))
                    } else {
                        if sql::is_kw(p, i, "EXECUTE"@) && sql::is_kw(p, i + 1, "IMMEDIATE"@) {
                            sql::within(execute_immediate(p, i + 2), i + 3, p)
                        } else {
                            if sql::is_kw(p, i, "GOTO"@) {
                                Err(sql::unsupported("goto"@))
                            } else {
                                if sql::is_kw(p, i, "FORALL"@) {
                                    Err(sql::unsupported("forall"@))
                                } else {
                                    if sql::is_kw(p, i, "PIPE"@) {
                                        Err(sql::unsupported("pipe"@))
                                    } else {
                                        sql::within(assignment_or_call(p, i), i + 1, p)
                                    }
                                }
                            }
                        }
                    }
                }
            }
        }
    }
}

pub open spec fn bind_assignment(p: Source, i: int) -> Result<(tree::Stmt, int), Failure>
    decreases p.lex.len() - i, 20int,
{
    if !sql::is_bind(p, i) {
        Err(sql::expected(":="@))
    } else {
        let n = sql::bind_at(p, i);
        let i = i + 1;
        if !sql::is_sym(p, i, ":="@) {
            Err(sql::expected(":="@))
        } else {
            let i = i + 1;
            match sql::within(sql::expr(p, i), i + 1, p) {
                Err(e) => Err(e),
                Ok((value, i)) => {
                    Ok((tree::Stmt::Assign { target: tree::Target::Bind(n), value }, i))
                },
            }
        }
    }
}

/// `SELECT ... INTO`.
pub open spec fn select_into(p: Source, i: int) -> Result<(tree::Stmt, int), Failure>
    decreases p.lex.len() - i, 25int,
{
    match sql::within(sql::select(p, i, true), i + 1, p) {
        Err(e) => Err(e),
        Ok((found, i)) => {
            let q = found.0;
            let into = found.1;
            match into {
                Some(exprs) => {
                    match targets_of(exprs) {
                        Err(e) => Err(e),
                        Ok(into) => {
                            Ok((tree::Stmt::Sql { stmt: tree::Statement::Query(q), into }, i))
                        },
                    }
                },
                None => {
                    Err(sql::pls(428, "an INTO clause is expected in this SELECT statement"@))
                },
            }
        },
    }
}

/// What FETCH and EXECUTE IMMEDIATE fill.
pub open spec fn targets(p: Source, i: int) -> Result<(Seq<tree::Target>, int), Failure>
    decreases p.lex.len() - i, 20int,
{
    match sql::within(sql::target_list(p, i, Seq::empty()), i + 1, p) {
        Err(e) => Err(e),
        Ok((exprs, i)) => {
            match targets_of(exprs) {
                Err(e) => Err(e),
                Ok(into) => {
                    Ok((into, i))
                },
            }
        },
    }
}

/// IF, behind its keyword.
pub open spec fn if_statement(p: Source, i: int) -> Result<(tree::Stmt, int), Failure>
    decreases p.lex.len() - i, 33int,
{
    match sql::within(guarded(p, i), i + 1, p) {
        Err(e) => Err(e),
        Ok((first, i)) => {
            match sql::within(if_rest(p, i, seq![first], None), i, p) {
                Err(e) => Err(e),
                Ok((rest, i)) => {
                    match sql::within(end_if(p, i), i + 1, p) {
                        Err(e) => Err(e),
                        Ok((end, i)) => {
                            Ok((tree::Stmt::If { branches: rest.0, else_: rest.1 }, i))
                        },
                    }
                },
            }
        },
    }
}

/// `condition THEN statements`
pub open spec fn guarded(p: Source, i: int) -> Result<((tree::Expr, Seq<tree::Stmt>), int), Failure>
    decreases p.lex.len() - i, 32int,
{
    match sql::within(sql::expr(p, i), i + 1, p) {
        Err(e) => Err(e),
        Ok((cond, i)) => {
            if !sql::is_kw(p, i, "THEN"@) {
                Err(error::failure(905, "missing keyword"@))
            } else {
                let i = i + 1;
                match sql::within(statements(p, i, Seq::empty()), i, p) {
                    Err(e) => Err(e),
                    Ok((body, i)) => {
                        Ok(((cond, body), i))
                    },
                }
            }
        },
    }
}

pub open spec fn end_if(p: Source, i: int) -> Result<((), int), Failure>
    decreases p.lex.len() - i, 0int,
{
    if !sql::is_kw(p, i, "END"@) {
        Err(error::failure(905, "missing keyword"@))
    } else {
        let i = i + 1;
        if !sql::is_kw(p, i, "IF"@) {
            Err(error::failure(905, "missing keyword"@))
        } else {
            let i = i + 1;
            Ok(((), i))
        }
    }
}

/// ELSIF and ELSE; of several ELSE the last one counts.
pub open spec fn if_rest(p: Source, i: int, branches: Seq<(tree::Expr, Seq<tree::Stmt>)>, else_: Option<Seq<tree::Stmt>>) -> Result<((Seq<(tree::Expr, Seq<tree::Stmt>)>, Option<Seq<tree::Stmt>>), int), Failure>
    decreases p.lex.len() - i, 31int,
{
    if sql::is_kw(p, i, "ELSIF"@) {
        match sql::within(guarded(p, i + 1), i + 2, p) {
            Err(e) => Err(e),
            Ok((branch, i)) => {
                if_rest(p, i, branches.push(branch), else_)
            },
        }
    } else if sql::is_kw(p, i, "ELSE"@) {
        match sql::within(statements(p, i + 1, Seq::empty()), i + 1, p) {
            Err(e) => Err(e),
            Ok((body, i)) => {
                if_rest(p, i, branches, Some(body))
            },
        }
    } else {
        Ok(((branches, else_), i))
    }
}

/// CASE, behind its keyword.
pub open spec fn case_statement(p: Source, i: int) -> Result<(tree::Stmt, int), Failure>
    decreases p.lex.len() - i, 33int,
{
    match sql::within(case_statement_operand(p, i), i, p) {
        Err(e) => Err(e),
        Ok((operand, i)) => {
            match sql::within(cases(p, i), i, p) {
                Err(e) => Err(e),
                Ok((cases, i)) => {
                    match sql::within(end_case(p, i), i + 1, p) {
                        Err(e) => Err(e),
                        Ok((end, i)) => {
                            Ok((tree::Stmt::Case { operand, whens: cases.0, else_: cases.1 }, i))
                        },
                    }
                },
            }
        },
    }
}

/// `WHEN ... THEN ... [ELSE ...]`
pub open spec fn cases(p: Source, i: int) -> Result<((Seq<(tree::Expr, Seq<tree::Stmt>)>, Option<Seq<tree::Stmt>>), int), Failure>
    decreases p.lex.len() - i, 32int,
{
    match sql::within(when_list(p, i, Seq::empty()), i, p) {
        Err(e) => Err(e),
        Ok((whens, i)) => {
            match sql::within(else_clause_of_cases(p, i), i, p) {
                Err(e) => Err(e),
                Ok((else_, i)) => {
                    Ok(((whens, else_), i))
                },
            }
        },
    }
}

pub open spec fn end_case(p: Source, i: int) -> Result<((), int), Failure>
    decreases p.lex.len() - i, 0int,
{
    if !sql::is_kw(p, i, "END"@) {
        Err(error::failure(905, "missing keyword"@))
    } else {
        let i = i + 1;
        if !sql::is_kw(p, i, "CASE"@) {
            Err(error::failure(905, "missing keyword"@))
        } else {
            let i = i + 1;
            let i = if sql::is_ident(p, i) {
                i + 1
            } else {
                i
            };
            Ok(((), i))
        }
    }
}

pub open spec fn when_list(p: Source, i: int, acc: Seq<(tree::Expr, Seq<tree::Stmt>)>) -> Result<(Seq<(tree::Expr, Seq<tree::Stmt>)>, int), Failure>
    decreases p.lex.len() - i, 31int,
{
    if !sql::is_kw(p, i, "WHEN"@) {
        Ok((acc, i))
    } else {
        match sql::within(guarded(p, i + 1), i + 2, p) {
            Err(e) => Err(e),
            Ok((w, i)) => {
                when_list(p, i, acc.push(w))
            },
        }
    }
}

/// FOR, behind its keyword: over a range, a query or a cursor.
pub open spec fn for_statement(p: Source, i: int, label: Option<Seq<char>>) -> Result<(tree::Stmt, int), Failure>
    decreases p.lex.len() - i, 28int,
{
    match sql::within(sql::ident(p, i), i + 1, p) {
        Err(e) => Err(e),
        Ok((var, i)) => {
            if !sql::is_kw(p, i, "IN"@) {
                Err(error::failure(905, "missing keyword"@))
            } else {
                let i = i + 1;
                let reverse = sql::is_kw(p, i, "REVERSE"@);
                let i = if reverse {
                    i + 1
                } else {
                    i
                };
                sql::within(for_source(p, i, label, var, reverse), i + 1, p)
            }
        },
    }
}

/// What a FOR loop runs over, and its body.
pub open spec fn for_source(p: Source, i: int, label: Option<Seq<char>>, var: Seq<char>, reverse: bool) -> Result<(tree::Stmt, int), Failure>
    decreases p.lex.len() - i, 28int,
{
    if !reverse && sql::is_sym(p, i, "("@) && (sql::is_kw(p, i + 1, "SELECT"@) || sql::is_kw(p, i + 1, "WITH"@)) {
        sql::within(for_query(p, i + 1, label, var), i + 2, p)
    } else {
        match sql::within(sql::additive(p, i), i + 1, p) {
            Err(e) => Err(e),
            Ok((low, i)) => {
                sql::within(for_rest(p, i, label, var, reverse, low), i + 1, p)
            },
        }
    }
}

/// A loop over a query, behind the bracket.
pub open spec fn for_query(p: Source, i: int, label: Option<Seq<char>>, var: Seq<char>) -> Result<(tree::Stmt, int), Failure>
    decreases p.lex.len() - i, 28int,
{
    match sql::within(sql::query(p, i), i + 1, p) {
        Err(e) => Err(e),
        Ok((q, i)) => {
            if !sql::is_sym(p, i, ")"@) {
                Err(error::failure(907, "missing right parenthesis"@))
            } else {
                let i = i + 1;
                match sql::within(loop_body(p, i), i + 1, p) {
                    Err(e) => Err(e),
                    Ok((body, i)) => {
                        Ok((tree::Stmt::ForCursor { label, var, source: tree::CursorSource::Query(q), body }, i))
                    },
                }
            }
        },
    }
}

/// A loop over a range or a cursor, behind its first sum.
pub open spec fn for_rest(p: Source, i: int, label: Option<Seq<char>>, var: Seq<char>, reverse: bool, low: tree::Expr) -> Result<(tree::Stmt, int), Failure>
    decreases p.lex.len() - i, 28int,
{
    if sql::is_sym(p, i, ".."@) {
        match sql::within(sql::additive(p, i + 1), i + 2, p) {
            Err(e) => Err(e),
            Ok((high, i)) => {
                match sql::within(loop_body(p, i), i + 1, p) {
                    Err(e) => Err(e),
                    Ok((body, i)) => {
                        Ok((tree::Stmt::ForRange { label, var, reverse, low, high, body }, i))
                    },
                }
            },
        }
    } else {
        match cursor_source(low) {
            Err(e) => Err(e),
            Ok(source) => {
                match sql::within(loop_body(p, i), i + 1, p) {
                    Err(e) => Err(e),
                    Ok((body, i)) => {
                        Ok((tree::Stmt::ForCursor { label, var, source, body }, i))
                    },
                }
            },
        }
    }
}

/// EXIT or CONTINUE.
pub open spec fn jump(p: Source, i: int) -> Result<(tree::Stmt, int), Failure>
    decreases p.lex.len() - i, 28int,
{
    if !sql::is_kw(p, i, "EXIT"@) && !sql::is_kw(p, i, "CONTINUE"@) {
        Err(sql::expected("a statement"@))
    } else {
        let exit = sql::is_kw(p, i, "EXIT"@);
        let i = i + 1;
        match sql::within(jump_label(p, i), i, p) {
            Err(e) => Err(e),
            Ok((label, i)) => {
                match sql::within(when_clause(p, i), i, p) {
                    Err(e) => Err(e),
                    Ok((when, i)) => {
                        if exit {
                            Ok((tree::Stmt::Exit { label, when }, i))
                        } else {
                            Ok((tree::Stmt::Continue { label, when }, i))
                        }
                    },
                }
            },
        }
    }
}

/// EXECUTE IMMEDIATE, behind its keywords.
pub open spec fn execute_immediate(p: Source, i: int) -> Result<(tree::Stmt, int), Failure>
    decreases p.lex.len() - i, 28int,
{
    match sql::within(sql::expr(p, i), i + 1, p) {
        Err(e) => Err(e),
        Ok((sql, i)) => {
            match sql::within(execute_immediate_into(p, i), i, p) {
                Err(e) => Err(e),
                Ok((into, i)) => {
                    match sql::within(execute_immediate_using(p, i), i, p) {
                        Err(e) => Err(e),
                        Ok((using, i)) => {
                            if sql::is_kw(p, i, "RETURNING"@) || sql::is_kw(p, i, "RETURN"@) {
                                Err(sql::unsupported("RETURNING in EXECUTE IMMEDIATE"@))
                            } else {
                                Ok((tree::Stmt::ExecuteImmediate { sql, into, using }, i))
                            }
                        },
                    }
                },
            }
        },
    }
}

pub open spec fn using(p: Source, i: int, acc: Seq<tree::Expr>) -> Result<(Seq<tree::Expr>, int), Failure>
    decreases p.lex.len() - i, 27int,
{
    match sql::within(using_item(p, i), i + 1, p) {
        Err(e) => Err(e),
        Ok((e, i)) => {
            if !sql::is_sym(p, i, ","@) {
                Ok((acc.push(e), i))
            } else {
                let i = i + 1;
                using(p, i, acc.push(e))
            }
        },
    }
}

/// One value behind USING.
pub open spec fn using_item(p: Source, i: int) -> Result<(tree::Expr, int), Failure>
    decreases p.lex.len() - i, 26int,
{
    if sql::is_kw(p, i, "OUT"@) || (sql::is_kw(p, i, "IN"@) && sql::is_kw(p, i + 1, "OUT"@)) {
        Err(sql::unsupported("OUT binds in EXECUTE IMMEDIATE"@))
    } else {
        let i = if sql::is_kw(p, i, "IN"@) {
            i + 1
        } else {
            i
        };
        sql::within(sql::expr(p, i), i + 1, p)
    }
}

pub open spec fn assignment_or_call(p: Source, i: int) -> Result<(tree::Stmt, int), Failure>
    decreases p.lex.len() - i, 27int,
{
    match sql::within(sql::dotted_name(p, i), i + 1, p) {
        Err(e) => Err(e),
        Ok((name, i)) => {
            if sql::is_sym(p, i, ":="@) {
                match named_target(name) {
                    Err(e) => Err(e),
                    Ok(target) => {
                        match sql::within(sql::expr(p, i + 1), i + 2, p) {
                            Err(e) => Err(e),
                            Ok((value, i)) => {
                                Ok((tree::Stmt::Assign { target, value }, i))
                            },
                        }
                    },
                }
            } else {
                match sql::within(args(p, i), i, p) {
                    Err(e) => Err(e),
                    Ok((args, i)) => {
                        Ok((tree::Stmt::Call { name, args }, i))
                    },
                }
            }
        },
    }
}

/// `LOOP statements END LOOP [label]`
pub open spec fn loop_body(p: Source, i: int) -> Result<(Seq<tree::Stmt>, int), Failure>
    decreases p.lex.len() - i, 27int,
{
    if !sql::is_kw(p, i, "LOOP"@) {
        Err(sql::expected("LOOP"@))
    } else {
        let i = i + 1;
        match sql::within(statements(p, i, Seq::empty()), i, p) {
            Err(e) => Err(e),
            Ok((body, i)) => {
                if !sql::is_kw(p, i, "END"@) {
                    Err(error::failure(905, "missing keyword"@))
                } else {
                    let i = i + 1;
                    if !sql::is_kw(p, i, "LOOP"@) {
                        Err(error::failure(905, "missing keyword"@))
                    } else {
                        let i = i + 1;
                        let i = if sql::is_ident(p, i) {
                            i + 1
                        } else {
                            i
                        };
                        Ok((body, i))
                    }
                }
            },
        }
    }
}

pub open spec fn block_decls(p: Source, i: int) -> Result<(Seq<tree::Decl>, int), Failure>
    decreases p.lex.len() - i, 0int,
{
    if !sql::is_kw(p, i, "DECLARE"@) {
        Ok((Seq::empty(), i))
    } else {
        sql::within(declarations(p, i + 1, Seq::empty()), i + 1, p)
    }
}

pub open spec fn block_parts_handlers(p: Source, i: int) -> Result<(Seq<tree::Handler>, int), Failure>
    decreases p.lex.len() - i, 0int,
{
    if !sql::is_kw(p, i, "EXCEPTION"@) {
        Ok((Seq::empty(), i))
    } else {
        sql::within(handlers(p, i + 1, Seq::empty()), i + 1, p)
    }
}

pub open spec fn default_clause(p: Source, i: int) -> Result<(Option<tree::Expr>, int), Failure>
    decreases p.lex.len() - i, 0int,
{
    if !(sql::is_sym(p, i, ":="@) || sql::is_kw(p, i, "DEFAULT"@)) {
        Ok((None, i))
    } else {
        match sql::within(sql::expr(p, i + 1), i + 2, p) {
            Err(e) => Err(e),
            Ok((v, i)) => {
                Ok((Some(v), i))
            },
        }
    }
}

pub open spec fn anchored_type_second(p: Source, i: int) -> Result<(Option<Seq<char>>, int), Failure>
    decreases p.lex.len() - i, 0int,
{
    if !sql::is_sym(p, i, "."@) {
        Ok((None, i))
    } else {
        match sql::within(sql::ident(p, i + 1), i + 2, p) {
            Err(e) => Err(e),
            Ok((v, i)) => {
                Ok((Some(v), i))
            },
        }
    }
}

pub open spec fn number_type_scale(p: Source, i: int) -> Result<(int, int), Failure>
    decreases p.lex.len() - i, 0int,
{
    if !sql::is_sym(p, i, ","@) {
        Ok((0, i))
    } else {
        sql::within(integer(p, i + 1), i + 2, p)
    }
}

pub open spec fn case_statement_operand(p: Source, i: int) -> Result<(Option<tree::Expr>, int), Failure>
    decreases p.lex.len() - i, 21int,
{
    if !!sql::is_kw(p, i, "WHEN"@) {
        Ok((None, i))
    } else {
        sql::within(sql::case_operand(p, i), i + 1, p)
    }
}

pub open spec fn else_clause_of_cases(p: Source, i: int) -> Result<(Option<Seq<tree::Stmt>>, int), Failure>
    decreases p.lex.len() - i, 0int,
{
    if !sql::is_kw(p, i, "ELSE"@) {
        Ok((None, i))
    } else {
        match sql::within(statements(p, i + 1, Seq::empty()), i + 1, p) {
            Err(e) => Err(e),
            Ok((v, i)) => {
                Ok((Some(v), i))
            },
        }
    }
}

pub open spec fn jump_label(p: Source, i: int) -> Result<(Option<Seq<char>>, int), Failure>
    decreases p.lex.len() - i, 0int,
{
    if !(sql::is_ident(p, i) && !sql::is_kw(p, i, "WHEN"@)) {
        Ok((None, i))
    } else {
        match sql::within(sql::ident(p, i), i + 1, p) {
            Err(e) => Err(e),
            Ok((v, i)) => {
                Ok((Some(v), i))
            },
        }
    }
}

pub open spec fn when_clause(p: Source, i: int) -> Result<(Option<tree::Expr>, int), Failure>
    decreases p.lex.len() - i, 0int,
{
    if !sql::is_kw(p, i, "WHEN"@) {
        Ok((None, i))
    } else {
        match sql::within(sql::expr(p, i + 1), i + 2, p) {
            Err(e) => Err(e),
            Ok((v, i)) => {
                Ok((Some(v), i))
            },
        }
    }
}

pub open spec fn execute_immediate_into(p: Source, i: int) -> Result<(Seq<tree::Target>, int), Failure>
    decreases p.lex.len() - i, 0int,
{
    if !sql::is_kw(p, i, "INTO"@) {
        Ok((Seq::empty(), i))
    } else {
        sql::within(targets(p, i + 1), i + 2, p)
    }
}

pub open spec fn execute_immediate_using(p: Source, i: int) -> Result<(Seq<tree::Expr>, int), Failure>
    decreases p.lex.len() - i, 0int,
{
    if !sql::is_kw(p, i, "USING"@) {
        Ok((Seq::empty(), i))
    } else {
        sql::within(using(p, i + 1, Seq::empty()), i + 2, p)
    }
}

impl<'a> Parser<'a> {
    fn list_ends(&self, i: usize) -> (r: bool)
        requires
            i <= self.tokens@.len(),
        ensures
            r == ends_list(self.source(), i as int),
    {
        self.is_kw(i, 0, "END") || self.is_kw(i, 0, "EXCEPTION") || self.is_kw(i, 0, "ELSIF")
            || self.is_kw(i, 0, "ELSE") || self.is_kw(i, 0, "WHEN")
    }

    fn skip_parens(&self, i: usize) -> (r: Result<((), usize), OraError>)
        requires
            self.inv(),
            i <= self.tokens@.len(),
        ensures
            match r {
                Ok((v, j)) => skip_parens(self.source(), i as int) == Ok::<((), int), Failure>(
                    (v, j as int),
                ) && i <= j <= self.tokens@.len(),
                Err(e) => skip_parens(self.source(), i as int) == Err::<((), int), Failure>(e@),
            },
    {
        if !self.is_sym(i, 0, "(") {
            return Ok(((), i));
        }
        let mut j: usize = i + 1;
        let mut depth: usize = 1;
        while depth > 0
            invariant
                self.inv(),
                i < j <= self.tokens@.len(),
                depth <= j - i,
                skip_parens(self.source(), i as int) == skip_open(
                    self.source(),
                    j as int,
                    depth as int,
                ),
            decreases self.tokens@.len() - j,
        {
            if j >= self.tokens.len() {
                return Err(OraError::new(907, "missing right parenthesis"));
            }
            if self.is_sym(j, 0, "(") {
                depth = depth + 1;
            } else if self.is_sym(j, 0, ")") {
                assert(")"@ != "("@) by {
                    reveal_strlit(")");
                    reveal_strlit("(");
                    assert(")"@[0] != "("@[0]);
                }
                depth = depth - 1;
            }
            j = j + 1;
        }
        Ok(((), j))
    }

    /// `[<<label>>]`
    #[verifier::spinoff_prover]
    #[verifier::rlimit(100)]
    pub(crate) fn label(&self, i: usize) -> (r: Result<(Option<String>, usize), OraError>)
        requires
            self.inv(),
            i <= self.tokens@.len(),
        ensures
            match r {
                Ok((v, j)) => label(self.source(), i as int) == Ok::<(Option<Seq<char>>, int), Failure>((ast::opt_text_tree(v), j as int)) && i <= j <= self.tokens@.len(),
                Err(e) => label(self.source(), i as int) == Err::<(Option<Seq<char>>, int), Failure>(e@),
            },
        decreases self.tokens@.len() - i, 1int,
    {
        if !self.is_sym(i, 0, "<<") {
            return Ok((None, i));
        }
        let (name, i) = self.ident(i + 1)?;
        if !self.is_sym(i, 0, ">>") {
            return Err(expected_error(">>"));
        }
        let i: usize = i + 1;
        Ok((Some(name), i))
    }

    /// `[<<label>>] [DECLARE declarations] BEGIN statements [EXCEPTION handlers] END [label]`
    #[verifier::spinoff_prover]
    #[verifier::rlimit(100)]
    pub(crate) fn block(&self, i: usize) -> (r: Result<(Block, usize), OraError>)
        requires
            self.inv(),
            i <= self.tokens@.len(),
        ensures
            match r {
                Ok((v, j)) => block(self.source(), i as int) == Ok::<(tree::Block, int), Failure>((plsql::block_tree(v), j as int)) && i + 1 <= j <= self.tokens@.len(),
                Err(e) => block(self.source(), i as int) == Err::<(tree::Block, int), Failure>(e@),
            },
        decreases self.tokens@.len() - i, 24int,
    {
        let (label, i) = self.label(i)?;
        let (decls, i) = self.block_decls(i)?;
        self.block_body(i, decls)
    }

    /// `BEGIN ... END [name]`, after the declarations.
    #[verifier::spinoff_prover]
    #[verifier::rlimit(100)]
    pub(crate) fn block_body(&self, i: usize, decls: Vec<Decl>) -> (r: Result<(Block, usize), OraError>)
        requires
            self.inv(),
            i <= self.tokens@.len(),
        ensures
            match r {
                Ok((v, j)) => block_body(self.source(), i as int, plsql::decls_tree(decls)) == Ok::<(tree::Block, int), Failure>((plsql::block_tree(v), j as int)) && i + 1 <= j <= self.tokens@.len(),
                Err(e) => block_body(self.source(), i as int, plsql::decls_tree(decls)) == Err::<(tree::Block, int), Failure>(e@),
            },
        decreases self.tokens@.len() - i, 23int,
    {
        if !self.is_kw(i, 0, "BEGIN") {
            return Err(expected_error("BEGIN"));
        }
        let i: usize = i + 1;
        let (parts, i) = self.block_parts(i)?;
        let (end, i) = self.end_of_block(i)?;
        Ok((Block { decls, body: parts.0, handlers: parts.1 }, i))
    }

    /// Statements and handlers.
    #[verifier::spinoff_prover]
    #[verifier::rlimit(100)]
    pub(crate) fn block_parts(&self, i: usize) -> (r: Result<((Vec<Stmt>, Vec<Handler>), usize), OraError>)
        requires
            self.inv(),
            i <= self.tokens@.len(),
        ensures
            match r {
                Ok((v, j)) => block_parts(self.source(), i as int) == Ok::<((Seq<tree::Stmt>, Seq<tree::Handler>), int), Failure>(((plsql::stmts_tree(v.0), plsql::handlers_tree(v.1)), j as int)) && i <= j <= self.tokens@.len(),
                Err(e) => block_parts(self.source(), i as int) == Err::<((Seq<tree::Stmt>, Seq<tree::Handler>), int), Failure>(e@),
            },
        decreases self.tokens@.len() - i, 32int,
    {
        let (body, i) = self.statements(i, plsql::no_stmts())?;
        let (handlers, i) = self.block_parts_handlers(i)?;
        Ok(((body, handlers), i))
    }

    /// `END [name]`
    #[verifier::spinoff_prover]
    #[verifier::rlimit(100)]
    pub(crate) fn end_of_block(&self, i: usize) -> (r: Result<((), usize), OraError>)
        requires
            self.inv(),
            i <= self.tokens@.len(),
        ensures
            match r {
                Ok((v, j)) => end_of_block(self.source(), i as int) == Ok::<((), int), Failure>((v, j as int)) && i + 1 <= j <= self.tokens@.len(),
                Err(e) => end_of_block(self.source(), i as int) == Err::<((), int), Failure>(e@),
            },
        decreases self.tokens@.len() - i, 0int,
    {
        if !self.is_kw(i, 0, "END") {
            return Err(expected_error("END"));
        }
        let i: usize = i + 1;
        let i: usize = if self.is_ident(i, 0) {
            i + 1
        } else {
            i
        };
        Ok(((), i))
    }

    #[verifier::spinoff_prover]
    #[verifier::rlimit(100)]
    #[verifier::loop_isolation(false)]
    pub(crate) fn handlers(&self, i: usize, acc: Vec<Handler>) -> (r: Result<(Vec<Handler>, usize), OraError>)
        requires
            self.inv(),
            i <= self.tokens@.len(),
        ensures
            match r {
                Ok((v, j)) => handlers(self.source(), i as int, plsql::handlers_tree(acc)) == Ok::<(Seq<tree::Handler>, int), Failure>((plsql::handlers_tree(v), j as int)) && i <= j <= self.tokens@.len(),
                Err(e) => handlers(self.source(), i as int, plsql::handlers_tree(acc)) == Err::<(Seq<tree::Handler>, int), Failure>(e@),
            },
        decreases self.tokens@.len() - i, 38int,
    {
        let mut acc = acc;
        let mut pos: usize = i;
        let ghost due = handlers(self.source(), i as int, plsql::handlers_tree(acc));
        loop
            invariant
                self.inv(),
                i <= pos <= self.tokens@.len(),
                due == handlers(self.source(), pos as int, plsql::handlers_tree(acc)),
            decreases self.tokens@.len() - pos,
        {
            let i: usize = pos;
            if !self.is_kw(i, 0, "WHEN") {
                return Ok((acc, i));
            }
            let (exceptions, i) = self.exception_names(i + 1, ast::no_texts())?;
            if !self.is_kw(i, 0, "THEN") {
                return Err(OraError::new(905, "missing keyword"));
            }
            let i: usize = i + 1;
            let (body, i) = self.statements(i, plsql::no_stmts())?;
            let ghost before = acc;
            let x = Handler { exceptions, body };
            acc.push(x);
            assert(plsql::handlers_tree(acc) =~= plsql::handlers_tree(before).push(plsql::handler_tree(x)));
            pos = i;
        }
    }

    #[verifier::spinoff_prover]
    #[verifier::rlimit(100)]
    #[verifier::loop_isolation(false)]
    pub(crate) fn exception_names(&self, i: usize, acc: Vec<String>) -> (r: Result<(Vec<String>, usize), OraError>)
        requires
            self.inv(),
            i <= self.tokens@.len(),
        ensures
            match r {
                Ok((v, j)) => exception_names(self.source(), i as int, ast::texts_tree(acc)) == Ok::<(Seq<Seq<char>>, int), Failure>((ast::texts_tree(v), j as int)) && i + 1 <= j <= self.tokens@.len(),
                Err(e) => exception_names(self.source(), i as int, ast::texts_tree(acc)) == Err::<(Seq<Seq<char>>, int), Failure>(e@),
            },
        decreases self.tokens@.len() - i, 5int,
    {
        let mut acc = acc;
        let mut pos: usize = i;
        let ghost due = exception_names(self.source(), i as int, ast::texts_tree(acc));
        loop
            invariant
                self.inv(),
                i <= pos <= self.tokens@.len(),
                due == exception_names(self.source(), pos as int, ast::texts_tree(acc)),
            decreases self.tokens@.len() - pos,
        {
            let i: usize = pos;
            let (n, i) = self.dotted_name(i)?;
            if !self.is_kw(i, 0, "OR") {
                return Ok((pushed_name(acc, n), i));
            }
            let i: usize = i + 1;
            let ghost before = acc;
            let x = n;
            acc.push(x);
            assert(ast::texts_tree(acc) =~= ast::texts_tree(before).push(x@));
            pos = i;
        }
    }

    /// `CALL name(args) [INTO :bind]`, run as a block.
    #[verifier::spinoff_prover]
    #[verifier::rlimit(100)]
    pub(crate) fn call_statement(&self, i: usize) -> (r: Result<(Block, usize), OraError>)
        requires
            self.inv(),
            i <= self.tokens@.len(),
        ensures
            match r {
                Ok((v, j)) => call_statement(self.source(), i as int) == Ok::<(tree::Block, int), Failure>((plsql::block_tree(v), j as int)) && i + 1 <= j <= self.tokens@.len(),
                Err(e) => call_statement(self.source(), i as int) == Err::<(tree::Block, int), Failure>(e@),
            },
        decreases self.tokens@.len() - i, 37int,
    {
        if !self.is_kw(i, 0, "CALL") {
            return Err(OraError::new(905, "missing keyword"));
        }
        let i: usize = i + 1;
        let (name, i) = self.dotted_name(i)?;
        let (args, i) = self.args(i)?;
        if self.is_kw(i, 0, "INTO") {
            if !self.is_bind(i, 1) {
                return Err(expected_error("a bind variable"));
            }
            let n = self.bind(i + 1);
            let i: usize = i + 2;
            return Ok((one_statement_block(Stmt::Assign { target: Target::Bind(n), value: Expr::Function { name, args: values_of(args), distinct: false } }), i));
        }
        Ok((one_statement_block(Stmt::Call { name, args }), i))
    }

    /// Declarations, up to BEGIN.
    #[verifier::spinoff_prover]
    #[verifier::rlimit(100)]
    #[verifier::loop_isolation(false)]
    pub(crate) fn declarations(&self, i: usize, acc: Vec<Decl>) -> (r: Result<(Vec<Decl>, usize), OraError>)
        requires
            self.inv(),
            i <= self.tokens@.len(),
        ensures
            match r {
                Ok((v, j)) => declarations(self.source(), i as int, plsql::decls_tree(acc)) == Ok::<(Seq<tree::Decl>, int), Failure>((plsql::decls_tree(v), j as int)) && i <= j <= self.tokens@.len(),
                Err(e) => declarations(self.source(), i as int, plsql::decls_tree(acc)) == Err::<(Seq<tree::Decl>, int), Failure>(e@),
            },
        decreases self.tokens@.len() - i, 37int,
    {
        let mut acc = acc;
        let mut pos: usize = i;
        let ghost due = declarations(self.source(), i as int, plsql::decls_tree(acc));
        loop
            invariant
                self.inv(),
                i <= pos <= self.tokens@.len(),
                due == declarations(self.source(), pos as int, plsql::decls_tree(acc)),
            decreases self.tokens@.len() - pos,
        {
            let i: usize = pos;
            if self.is_kw(i, 0, "BEGIN") {
                return Ok((acc, i));
            }
            if i >= self.tokens.len() {
                return Err(expected_error("BEGIN"));
            }
            let (d, i) = self.declaration(i)?;
            if let Some(d) = d {
                let ghost before = acc;
                let x = d;
                acc.push(x);
                assert(plsql::decls_tree(acc) =~= plsql::decls_tree(before).push(plsql::decl_tree(x)));
                pos = i;
                continue;
            }
            pos = i;
        }
    }

    /// One declaration. Pragmas such as AUTONOMOUS_TRANSACTION and forward declarations
    /// leave nothing behind.
    #[verifier::spinoff_prover]
    #[verifier::rlimit(100)]
    pub(crate) fn declaration(&self, i: usize) -> (r: Result<(Option<Decl>, usize), OraError>)
        requires
            self.inv(),
            i <= self.tokens@.len(),
        ensures
            match r {
                Ok((v, j)) => declaration(self.source(), i as int) == Ok::<(Option<tree::Decl>, int), Failure>((plsql::opt_decl_tree(v), j as int)) && i + 1 <= j <= self.tokens@.len(),
                Err(e) => declaration(self.source(), i as int) == Err::<(Option<tree::Decl>, int), Failure>(e@),
            },
        decreases self.tokens@.len() - i, 36int,
    {
        if self.is_kw(i, 0, "PROCEDURE") || self.is_kw(i, 0, "FUNCTION") {
            return self.local_routine(i);
        }
        if self.is_kw(i, 0, "CURSOR") {
            let (c, i) = self.cursor_decl(i + 1)?;
            return Ok((Some(Decl::Cursor(c)), i));
        }
        if self.is_kw(i, 0, "PRAGMA") && self.is_kw(i, 1, "EXCEPTION_INIT") {
            let (d, i) = self.exception_init(i + 2)?;
            return Ok((Some(d), i));
        }
        if self.is_kw(i, 0, "PRAGMA") {
            let (pragma, i) = self.ident(i + 1)?;
            let (parens, i) = self.skip_parens(i)?;
            if !self.is_sym(i, 0, ";") {
                return Err(expected_error(";"));
            }
            let i: usize = i + 1;
            return Ok((None, i));
        }
        if self.is_kw(i, 0, "TYPE") || self.is_kw(i, 0, "SUBTYPE") {
            return Err(unsupported_error("user-defined PL/SQL types"));
        }
        let (d, i) = self.variable(i)?;
        Ok((Some(d), i))
    }

    #[verifier::spinoff_prover]
    #[verifier::rlimit(100)]
    pub(crate) fn local_routine(&self, i: usize) -> (r: Result<(Option<Decl>, usize), OraError>)
        requires
            self.inv(),
            i <= self.tokens@.len(),
        ensures
            match r {
                Ok((v, j)) => local_routine(self.source(), i as int) == Ok::<(Option<tree::Decl>, int), Failure>((plsql::opt_decl_tree(v), j as int)) && i + 1 <= j <= self.tokens@.len(),
                Err(e) => local_routine(self.source(), i as int) == Err::<(Option<tree::Decl>, int), Failure>(e@),
            },
        decreases self.tokens@.len() - i, 35int,
    {
        let (head, i) = self.routine_signature(i)?;
        if self.is_sym(i, 0, ";") {
            let i: usize = i + 1;
            return Ok((None, i));
        }
        let (r, i) = self.routine_body(i, head)?;
        if !self.is_sym(i, 0, ";") {
            return Err(expected_error(";"));
        }
        let i: usize = i + 1;
        Ok((Some(Decl::Routine(Arc::new(r))), i))
    }

    #[verifier::spinoff_prover]
    #[verifier::rlimit(100)]
    pub(crate) fn cursor_decl(&self, i: usize) -> (r: Result<(CursorDecl, usize), OraError>)
        requires
            self.inv(),
            i <= self.tokens@.len(),
        ensures
            match r {
                Ok((v, j)) => cursor_decl(self.source(), i as int) == Ok::<(tree::CursorDecl, int), Failure>((plsql::cursor_decl_tree(v), j as int)) && i + 1 <= j <= self.tokens@.len(),
                Err(e) => cursor_decl(self.source(), i as int) == Err::<(tree::CursorDecl, int), Failure>(e@),
            },
        decreases self.tokens@.len() - i, 35int,
    {
        let (name, i) = self.ident(i)?;
        let (params, i) = self.params(i)?;
        if self.is_kw(i, 0, "RETURN") {
            return Err(unsupported_error("typed cursors"));
        }
        if !self.is_kw(i, 0, "IS") {
            return Err(OraError::new(905, "missing keyword"));
        }
        let i: usize = i + 1;
        let (query, i) = self.query(i)?;
        if !self.is_sym(i, 0, ";") {
            return Err(expected_error(";"));
        }
        let i: usize = i + 1;
        Ok((CursorDecl { name, params, query }, i))
    }

    #[verifier::spinoff_prover]
    #[verifier::rlimit(100)]
    pub(crate) fn exception_init(&self, i: usize) -> (r: Result<(Decl, usize), OraError>)
        requires
            self.inv(),
            i <= self.tokens@.len(),
        ensures
            match r {
                Ok((v, j)) => exception_init(self.source(), i as int) == Ok::<(tree::Decl, int), Failure>((plsql::decl_tree(v), j as int)) && i + 1 <= j <= self.tokens@.len(),
                Err(e) => exception_init(self.source(), i as int) == Err::<(tree::Decl, int), Failure>(e@),
            },
        decreases self.tokens@.len() - i, 35int,
    {
        if !self.is_sym(i, 0, "(") {
            return Err(OraError::new(906, "missing left parenthesis"));
        }
        let i: usize = i + 1;
        let (name, i) = self.ident(i)?;
        if !self.is_sym(i, 0, ",") {
            return Err(OraError::new(917, "missing comma"));
        }
        let i: usize = i + 1;
        let (code, i) = self.integer(i)?;
        if !self.is_sym(i, 0, ")") {
            return Err(OraError::new(907, "missing right parenthesis"));
        }
        let i: usize = i + 1;
        if !self.is_sym(i, 0, ";") {
            return Err(expected_error(";"));
        }
        let i: usize = i + 1;
        Ok((Decl::ExceptionInit { name, code: magnitude_of(code) }, i))
    }

    /// A number of at most nine digits, with or without a sign.
    #[verifier::spinoff_prover]
    #[verifier::rlimit(100)]
    pub(crate) fn integer(&self, i: usize) -> (r: Result<(i64, usize), OraError>)
        requires
            self.inv(),
            i <= self.tokens@.len(),
        ensures
            match r {
                Ok((v, j)) => integer(self.source(), i as int) == Ok::<(int, int), Failure>((v as int, j as int)) && i + 1 <= j <= self.tokens@.len(),
                Err(e) => integer(self.source(), i as int) == Err::<(int, int), Failure>(e@),
            },
        decreases self.tokens@.len() - i, 3int,
    {
        let negative = self.is_sym(i, 0, "-");
        let i: usize = if negative {
            i + 1
        } else {
            i
        };
        let n = self.small(i);
        if let Some(n) = n {
            let i: usize = i + 1;
            return Ok((if negative { -(n as i64) } else { n as i64 }, i));
        }
        Err(expected_error("an integer"))
    }

    #[verifier::spinoff_prover]
    #[verifier::rlimit(100)]
    pub(crate) fn variable(&self, i: usize) -> (r: Result<(Decl, usize), OraError>)
        requires
            self.inv(),
            i <= self.tokens@.len(),
        ensures
            match r {
                Ok((v, j)) => variable(self.source(), i as int) == Ok::<(tree::Decl, int), Failure>((plsql::decl_tree(v), j as int)) && i + 1 <= j <= self.tokens@.len(),
                Err(e) => variable(self.source(), i as int) == Err::<(tree::Decl, int), Failure>(e@),
            },
        decreases self.tokens@.len() - i, 35int,
    {
        let (name, i) = self.ident(i)?;
        if self.is_kw(i, 0, "EXCEPTION") {
            let i: usize = i + 1;
            if !self.is_sym(i, 0, ";") {
                return Err(expected_error(";"));
            }
            let i: usize = i + 1;
            return Ok((Decl::Exception(name), i));
        }
        self.typed_variable(i, name)
    }

    /// A variable or constant, behind its name.
    #[verifier::spinoff_prover]
    #[verifier::rlimit(100)]
    pub(crate) fn typed_variable(&self, i: usize, name: String) -> (r: Result<(Decl, usize), OraError>)
        requires
            self.inv(),
            i <= self.tokens@.len(),
        ensures
            match r {
                Ok((v, j)) => typed_variable(self.source(), i as int, name@) == Ok::<(tree::Decl, int), Failure>((plsql::decl_tree(v), j as int)) && i + 1 <= j <= self.tokens@.len(),
                Err(e) => typed_variable(self.source(), i as int, name@) == Err::<(tree::Decl, int), Failure>(e@),
            },
        decreases self.tokens@.len() - i, 35int,
    {
        let constant = self.is_kw(i, 0, "CONSTANT");
        let i: usize = if constant {
            i + 1
        } else {
            i
        };
        let (ty, i) = self.type_ref(i, false)?;
        let (not_null, i) = self.not_null(i)?;
        let (default, i) = self.default_clause(i)?;
        if (constant || not_null) && default.is_none() {
            return Err(pls_error(218, "a variable declared NOT NULL must have an initialization assignment"));
        }
        if !self.is_sym(i, 0, ";") {
            return Err(expected_error(";"));
        }
        let i: usize = i + 1;
        Ok((Decl::Var(VarDecl { name, ty, constant, not_null, default }), i))
    }

    /// `[NOT NULL]`
    #[verifier::spinoff_prover]
    #[verifier::rlimit(100)]
    pub(crate) fn not_null(&self, i: usize) -> (r: Result<(bool, usize), OraError>)
        requires
            self.inv(),
            i <= self.tokens@.len(),
        ensures
            match r {
                Ok((v, j)) => not_null(self.source(), i as int) == Ok::<(bool, int), Failure>((v, j as int)) && i <= j <= self.tokens@.len(),
                Err(e) => not_null(self.source(), i as int) == Err::<(bool, int), Failure>(e@),
            },
        decreases self.tokens@.len() - i, 0int,
    {
        if !self.is_kw(i, 0, "NOT") {
            return Ok((false, i));
        }
        let i: usize = i + 1;
        if !self.is_kw(i, 0, "NULL") {
            return Err(OraError::new(905, "missing keyword"));
        }
        let i: usize = i + 1;
        Ok((true, i))
    }

    /// A PL/SQL type. Parameters may leave out lengths (`VARCHAR2` alone).
    #[verifier::spinoff_prover]
    #[verifier::rlimit(100)]
    pub(crate) fn type_ref(&self, i: usize, param: bool) -> (r: Result<(TypeRef, usize), OraError>)
        requires
            self.inv(),
            i <= self.tokens@.len(),
        ensures
            match r {
                Ok((v, j)) => type_ref(self.source(), i as int, param) == Ok::<(tree::TypeRef, int), Failure>((plsql::type_ref_tree(v), j as int)) && i + 1 <= j <= self.tokens@.len(),
                Err(e) => type_ref(self.source(), i as int, param) == Err::<(tree::TypeRef, int), Failure>(e@),
            },
        decreases self.tokens@.len() - i, 30int,
    {
        if self.is_ident(i, 0) && (self.is_sym(i, 1, "%") || self.is_sym(i, 1, ".")) {
            return self.anchored_type(i);
        }
        if !self.is_word(i) {
            return Err(OraError::new(902, "invalid datatype"));
        }
        if self.is_kw(i, 0, "BOOLEAN") {
            let i: usize = i + 1;
            return Ok((TypeRef::Boolean, i));
        }
        if self.integer_type_here(i) {
            let i: usize = i + 1;
            return Ok((TypeRef::Integer, i));
        }
        if self.is_kw(i, 0, "STRING") {
            let (n, i) = self.length(i + 1)?;
            return Ok((TypeRef::Sql(SqlType::Varchar2(longest_unless(n))), i));
        }
        if (self.is_kw(i, 0, "VARCHAR2") || self.is_kw(i, 0, "VARCHAR") || self.is_kw(i, 0, "NVARCHAR2")) && !self.is_sym(i, 1, "(") {
            if !param {
                return Err(pls_error(215, "String length constraints must be in range (1 .. 32767)"));
            }
            let i: usize = i + 1;
            return Ok((TypeRef::Sql(SqlType::Varchar2(32767)), i));
        }
        if (self.is_kw(i, 0, "CHAR") || self.is_kw(i, 0, "NCHAR")) && !self.is_sym(i, 1, "(") {
            if param {
                let i: usize = i + 1;
                return Ok((TypeRef::Sql(SqlType::Varchar2(32767)), i));
            }
            let i: usize = i + 1;
            return Ok((TypeRef::Sql(SqlType::Char(1)), i));
        }
        if self.is_kw(i, 0, "SYS_REFCURSOR") || self.is_kw(i, 0, "REF") {
            return Err(unsupported_error("REF CURSOR"));
        }
        let (t, i) = self.data_type(i)?;
        Ok((TypeRef::Sql(t), i))
    }

    /// `variable%TYPE`, `table.column%TYPE`, `table%ROWTYPE` or `cursor%ROWTYPE`.
    #[verifier::spinoff_prover]
    #[verifier::rlimit(100)]
    pub(crate) fn anchored_type(&self, i: usize) -> (r: Result<(TypeRef, usize), OraError>)
        requires
            self.inv(),
            i <= self.tokens@.len(),
        ensures
            match r {
                Ok((v, j)) => anchored_type(self.source(), i as int) == Ok::<(tree::TypeRef, int), Failure>((plsql::type_ref_tree(v), j as int)) && i + 1 <= j <= self.tokens@.len(),
                Err(e) => anchored_type(self.source(), i as int) == Err::<(tree::TypeRef, int), Failure>(e@),
            },
        decreases self.tokens@.len() - i, 29int,
    {
        let (first, i) = self.ident(i)?;
        let (second, i) = self.anchored_type_second(i)?;
        if !self.is_sym(i, 0, "%") {
            return Err(expected_error("%TYPE or %ROWTYPE"));
        }
        let i: usize = i + 1;
        let (attr, i) = self.ident(i)?;
        if text::same(&attr, "TYPE") {
            if let Some(column) = second {
                return Ok((TypeRef::TypeOf { table: Some(first), name: column }, i));
            }
            return Ok((TypeRef::TypeOf { table: None, name: first }, i));
        }
        if text::same(&attr, "ROWTYPE") {
            if let Some(table) = second {
                return Ok((TypeRef::RowType(table), i));
            }
            return Ok((TypeRef::RowType(first), i));
        }
        Err(expected_error("%TYPE or %ROWTYPE"))
    }

    /// `[(length)]`
    #[verifier::spinoff_prover]
    #[verifier::rlimit(100)]
    pub(crate) fn length(&self, i: usize) -> (r: Result<(Option<u32>, usize), OraError>)
        requires
            self.inv(),
            i <= self.tokens@.len(),
        ensures
            match r {
                Ok((v, j)) => length(self.source(), i as int) == Ok::<(Option<u32>, int), Failure>((v, j as int)) && i <= j <= self.tokens@.len(),
                Err(e) => length(self.source(), i as int) == Err::<(Option<u32>, int), Failure>(e@),
            },
        decreases self.tokens@.len() - i, 2int,
    {
        if !self.is_sym(i, 0, "(") {
            return Ok((None, i));
        }
        let i: usize = i + 1;
        let n = self.small(i);
        if let Some(n) = n {
            let i: usize = i + 1;
            let i: usize = if self.is_kw(i, 0, "BYTE") || self.is_kw(i, 0, "CHAR") {
                i + 1
            } else {
                i
            };
            if !self.is_sym(i, 0, ")") {
                return Err(OraError::new(907, "missing right parenthesis"));
            }
            let i: usize = i + 1;
            return Ok((Some(n), i));
        }
        Err(OraError::new(910, "specified length too long for its datatype"))
    }

    /// A type of SQL.
    #[verifier::spinoff_prover]
    #[verifier::rlimit(100)]
    pub(crate) fn data_type(&self, i: usize) -> (r: Result<(SqlType, usize), OraError>)
        requires
            self.inv(),
            i <= self.tokens@.len(),
        ensures
            match r {
                Ok((v, j)) => data_type(self.source(), i as int) == Ok::<(SqlType, int), Failure>((v, j as int)) && i + 1 <= j <= self.tokens@.len(),
                Err(e) => data_type(self.source(), i as int) == Err::<(SqlType, int), Failure>(e@),
            },
        decreases self.tokens@.len() - i, 28int,
    {
        if self.is_kw(i, 0, "NUMBER") || self.is_kw(i, 0, "NUMERIC") || self.is_kw(i, 0, "DECIMAL") {
            return self.number_type(i + 1);
        }
        if self.is_kw(i, 0, "INTEGER") || self.is_kw(i, 0, "INT") || self.is_kw(i, 0, "SMALLINT") {
            let i: usize = i + 1;
            return Ok((SqlType::Number { precision: 38, scale: 0 }, i));
        }
        if self.is_kw(i, 0, "DATE") {
            let i: usize = i + 1;
            return Ok((SqlType::Date, i));
        }
        if self.is_kw(i, 0, "TIMESTAMP") {
            let (n, i) = self.length(i + 1)?;
            return Ok((SqlType::Timestamp(digits_unless(n)), i));
        }
        if self.is_kw(i, 0, "VARCHAR2") || self.is_kw(i, 0, "VARCHAR") || self.is_kw(i, 0, "NVARCHAR2") {
            let (n, i) = self.length(i + 1)?;
            if let Some(n) = n {
                return Ok((SqlType::Varchar2(n), i));
            }
            return Err(OraError::new(906, "missing left parenthesis"));
        }
        if self.is_kw(i, 0, "CHAR") || self.is_kw(i, 0, "NCHAR") {
            let (n, i) = self.length(i + 1)?;
            if let Some(n) = n {
                return Ok((SqlType::Char(n), i));
            }
            return Ok((SqlType::Char(1), i));
        }
        Err(OraError::new(902, "invalid datatype"))
    }

    /// `[(precision [, scale])]`
    #[verifier::spinoff_prover]
    #[verifier::rlimit(100)]
    pub(crate) fn number_type(&self, i: usize) -> (r: Result<(SqlType, usize), OraError>)
        requires
            self.inv(),
            i <= self.tokens@.len(),
        ensures
            match r {
                Ok((v, j)) => number_type(self.source(), i as int) == Ok::<(SqlType, int), Failure>((v, j as int)) && i <= j <= self.tokens@.len(),
                Err(e) => number_type(self.source(), i as int) == Err::<(SqlType, int), Failure>(e@),
            },
        decreases self.tokens@.len() - i, 27int,
    {
        if !self.is_sym(i, 0, "(") {
            return Ok((SqlType::Number { precision: 0, scale: 0 }, i));
        }
        let i: usize = i + 1;
        let (precision, i) = self.integer(i)?;
        if precision < 1 || precision > 38 {
            return Err(OraError::new(1727, "numeric precision specifier is out of range (1 to 38)"));
        }
        let (scale, i) = self.number_type_scale(i)?;
        if scale < -84 || scale > 127 {
            return Err(OraError::new(1728, "numeric scale specifier is out of range (-84 to 127)"));
        }
        if !self.is_sym(i, 0, ")") {
            return Err(OraError::new(907, "missing right parenthesis"));
        }
        let i: usize = i + 1;
        Ok((SqlType::Number { precision: precision as u8, scale: scale as i8 }, i))
    }

    /// A full `PROCEDURE` or `FUNCTION` definition, as in CREATE PROCEDURE.
    #[verifier::spinoff_prover]
    #[verifier::rlimit(100)]
    pub(crate) fn routine(&self, i: usize) -> (r: Result<(Routine, usize), OraError>)
        requires
            self.inv(),
            i <= self.tokens@.len(),
        ensures
            match r {
                Ok((v, j)) => routine(self.source(), i as int) == Ok::<(tree::Routine, int), Failure>((plsql::routine_tree(v), j as int)) && i + 1 <= j <= self.tokens@.len(),
                Err(e) => routine(self.source(), i as int) == Err::<(tree::Routine, int), Failure>(e@),
            },
        decreases self.tokens@.len() - i, 43int,
    {
        let (r, i) = self.routine_signature(i)?;
        self.routine_body(i, r)
    }

    #[verifier::spinoff_prover]
    #[verifier::rlimit(100)]
    pub(crate) fn routine_signature(&self, i: usize) -> (r: Result<(Routine, usize), OraError>)
        requires
            self.inv(),
            i <= self.tokens@.len(),
        ensures
            match r {
                Ok((v, j)) => routine_signature(self.source(), i as int) == Ok::<(tree::Routine, int), Failure>((plsql::routine_tree(v), j as int)) && i + 1 <= j <= self.tokens@.len(),
                Err(e) => routine_signature(self.source(), i as int) == Err::<(tree::Routine, int), Failure>(e@),
            },
        decreases self.tokens@.len() - i, 34int,
    {
        let (function, i) = self.routine_word(i)?;
        let (name, i) = self.object_name(i)?;
        let (params, i) = self.params(i)?;
        if function {
            if !self.is_kw(i, 0, "RETURN") {
                return Err(OraError::new(905, "missing keyword"));
            }
            let i: usize = i + 1;
            let (ty, i) = self.type_ref(i, true)?;
            return Ok((Routine { name, params, returns: Some(ty), block: no_block() }, i));
        }
        Ok((Routine { name, params, returns: None, block: no_block() }, i))
    }

    /// FUNCTION or PROCEDURE.
    #[verifier::spinoff_prover]
    #[verifier::rlimit(100)]
    pub(crate) fn routine_word(&self, i: usize) -> (r: Result<(bool, usize), OraError>)
        requires
            self.inv(),
            i <= self.tokens@.len(),
        ensures
            match r {
                Ok((v, j)) => routine_word(self.source(), i as int) == Ok::<(bool, int), Failure>((v, j as int)) && i + 1 <= j <= self.tokens@.len(),
                Err(e) => routine_word(self.source(), i as int) == Err::<(bool, int), Failure>(e@),
            },
        decreases self.tokens@.len() - i, 0int,
    {
        if self.is_kw(i, 0, "FUNCTION") {
            let i: usize = i + 1;
            return Ok((true, i));
        }
        if !self.is_kw(i, 0, "PROCEDURE") {
            return Err(OraError::new(905, "missing keyword"));
        }
        let i: usize = i + 1;
        Ok((false, i))
    }

    #[verifier::spinoff_prover]
    #[verifier::rlimit(100)]
    pub(crate) fn routine_body(&self, i: usize, head: Routine) -> (r: Result<(Routine, usize), OraError>)
        requires
            self.inv(),
            i <= self.tokens@.len(),
        ensures
            match r {
                Ok((v, j)) => routine_body(self.source(), i as int, plsql::routine_tree(head)) == Ok::<(tree::Routine, int), Failure>((plsql::routine_tree(v), j as int)) && i + 1 <= j <= self.tokens@.len(),
                Err(e) => routine_body(self.source(), i as int, plsql::routine_tree(head)) == Err::<(tree::Routine, int), Failure>(e@),
            },
        decreases self.tokens@.len() - i, 42int,
    {
        let (options, i) = self.routine_options(i, 0)?;
        if !self.is_kw(i, 0, "IS") && !self.is_kw(i, 0, "AS") {
            return Err(expected_error("IS or AS"));
        }
        let i: usize = i + 1;
        if self.is_kw(i, 0, "LANGUAGE") || self.is_kw(i, 0, "EXTERNAL") {
            return Err(unsupported_error("external procedures"));
        }
        let (decls, i) = self.declarations(i, plsql::no_decls())?;
        let (block, i) = self.block_body(i, decls)?;
        Ok((Routine { name: head.name, params: head.params, returns: head.returns, block }, i))
    }

    /// Options before IS or AS.
    #[verifier::spinoff_prover]
    #[verifier::rlimit(100)]
    #[verifier::loop_isolation(false)]
    pub(crate) fn routine_options(&self, i: usize, n: usize) -> (r: Result<(usize, usize), OraError>)
        requires
            self.inv(),
            i <= self.tokens@.len(),
        ensures
            match r {
                Ok((v, j)) => routine_options(self.source(), i as int, n as int) == Ok::<(int, int), Failure>((v as int, j as int)) && i <= j <= self.tokens@.len(),
                Err(e) => routine_options(self.source(), i as int, n as int) == Err::<(int, int), Failure>(e@),
            },
        decreases self.tokens@.len() - i, 5int,
    {
        let mut n = n;
        let mut pos: usize = i;
        let ghost due = routine_options(self.source(), i as int, n as int);
        loop
            invariant
                self.inv(),
                i <= pos <= self.tokens@.len(),
                due == routine_options(self.source(), pos as int, n as int),
            decreases self.tokens@.len() - pos,
        {
            let i: usize = pos;
            if self.is_kw(i, 0, "AUTHID") {
                let i: usize = i + 1;
                if i >= self.tokens.len() {
                    return Err(expected_error("IS or AS"));
                }
                let i: usize = i + 1;
                pos = i;
                continue;
            }
            if self.is_kw(i, 0, "DETERMINISTIC") || self.is_kw(i, 0, "PARALLEL_ENABLE") || self.is_kw(i, 0, "RESULT_CACHE") {
                let (parens, i) = self.skip_parens(i + 1)?;
                pos = i;
                continue;
            }
            if self.is_kw(i, 0, "PIPELINED") {
                return Err(unsupported_error("pipelined functions"));
            }
            return Ok((n, i));
        }
    }

    #[verifier::spinoff_prover]
    #[verifier::rlimit(100)]
    pub(crate) fn params(&self, i: usize) -> (r: Result<(Vec<Param>, usize), OraError>)
        requires
            self.inv(),
            i <= self.tokens@.len(),
        ensures
            match r {
                Ok((v, j)) => params(self.source(), i as int) == Ok::<(Seq<tree::Param>, int), Failure>((plsql::params_tree(v), j as int)) && i <= j <= self.tokens@.len(),
                Err(e) => params(self.source(), i as int) == Err::<(Seq<tree::Param>, int), Failure>(e@),
            },
        decreases self.tokens@.len() - i, 34int,
    {
        if !self.is_sym(i, 0, "(") {
            return Ok((plsql::no_params(), i));
        }
        let (params, i) = self.param_list(i + 1, plsql::no_params())?;
        if !self.is_sym(i, 0, ")") {
            return Err(OraError::new(907, "missing right parenthesis"));
        }
        let i: usize = i + 1;
        Ok((params, i))
    }

    #[verifier::spinoff_prover]
    #[verifier::rlimit(100)]
    #[verifier::loop_isolation(false)]
    pub(crate) fn param_list(&self, i: usize, acc: Vec<Param>) -> (r: Result<(Vec<Param>, usize), OraError>)
        requires
            self.inv(),
            i <= self.tokens@.len(),
        ensures
            match r {
                Ok((v, j)) => param_list(self.source(), i as int, plsql::params_tree(acc)) == Ok::<(Seq<tree::Param>, int), Failure>((plsql::params_tree(v), j as int)) && i + 1 <= j <= self.tokens@.len(),
                Err(e) => param_list(self.source(), i as int, plsql::params_tree(acc)) == Err::<(Seq<tree::Param>, int), Failure>(e@),
            },
        decreases self.tokens@.len() - i, 33int,
    {
        let mut acc = acc;
        let mut pos: usize = i;
        let ghost due = param_list(self.source(), i as int, plsql::params_tree(acc));
        loop
            invariant
                self.inv(),
                i <= pos <= self.tokens@.len(),
                due == param_list(self.source(), pos as int, plsql::params_tree(acc)),
            decreases self.tokens@.len() - pos,
        {
            let i: usize = pos;
            let (x, i) = self.param(i)?;
            if !self.is_sym(i, 0, ",") {
                return Ok((pushed_param(acc, x), i));
            }
            let i: usize = i + 1;
            let ghost before = acc;
            let x = x;
            acc.push(x);
            assert(plsql::params_tree(acc) =~= plsql::params_tree(before).push(plsql::param_tree(x)));
            pos = i;
        }
    }

    #[verifier::spinoff_prover]
    #[verifier::rlimit(100)]
    pub(crate) fn param(&self, i: usize) -> (r: Result<(Param, usize), OraError>)
        requires
            self.inv(),
            i <= self.tokens@.len(),
        ensures
            match r {
                Ok((v, j)) => param(self.source(), i as int) == Ok::<(tree::Param, int), Failure>((plsql::param_tree(v), j as int)) && i + 1 <= j <= self.tokens@.len(),
                Err(e) => param(self.source(), i as int) == Err::<(tree::Param, int), Failure>(e@),
            },
        decreases self.tokens@.len() - i, 32int,
    {
        let (name, i) = self.ident(i)?;
        let out = self.is_kw(i, 0, "OUT");
        let i: usize = if out {
            i + 1
        } else {
            i
        };
        let in_ = !out && self.is_kw(i, 0, "IN");
        let i: usize = if in_ {
            i + 1
        } else {
            i
        };
        let in_out = in_ && self.is_kw(i, 0, "OUT");
        let i: usize = if in_out {
            i + 1
        } else {
            i
        };
        let mode = if out { ParamMode::Out } else if in_out { ParamMode::InOut } else { ParamMode::In };
        let i: usize = if self.is_kw(i, 0, "NOCOPY") {
            i + 1
        } else {
            i
        };
        let (ty, i) = self.type_ref(i, true)?;
        let (default, i) = self.default_clause(i)?;
        Ok((Param { name, mode, ty, default }, i))
    }

    /// `(arg, name => arg, ...)`, or nothing.
    #[verifier::spinoff_prover]
    #[verifier::rlimit(100)]
    pub(crate) fn args(&self, i: usize) -> (r: Result<(Vec<Arg>, usize), OraError>)
        requires
            self.inv(),
            i <= self.tokens@.len(),
        ensures
            match r {
                Ok((v, j)) => args(self.source(), i as int) == Ok::<(Seq<tree::Arg>, int), Failure>((plsql::args_tree(v), j as int)) && i <= j <= self.tokens@.len(),
                Err(e) => args(self.source(), i as int) == Err::<(Seq<tree::Arg>, int), Failure>(e@),
            },
        decreases self.tokens@.len() - i, 34int,
    {
        if !self.is_sym(i, 0, "(") {
            return Ok((plsql::no_args(), i));
        }
        if self.is_sym(i, 1, ")") {
            let i: usize = i + 2;
            return Ok((plsql::no_args(), i));
        }
        let (args, i) = self.arg_list(i + 1, plsql::no_args())?;
        if !self.is_sym(i, 0, ")") {
            return Err(OraError::new(907, "missing right parenthesis"));
        }
        let i: usize = i + 1;
        Ok((args, i))
    }

    #[verifier::spinoff_prover]
    #[verifier::rlimit(100)]
    #[verifier::loop_isolation(false)]
    pub(crate) fn arg_list(&self, i: usize, acc: Vec<Arg>) -> (r: Result<(Vec<Arg>, usize), OraError>)
        requires
            self.inv(),
            i <= self.tokens@.len(),
        ensures
            match r {
                Ok((v, j)) => arg_list(self.source(), i as int, plsql::args_tree(acc)) == Ok::<(Seq<tree::Arg>, int), Failure>((plsql::args_tree(v), j as int)) && i + 1 <= j <= self.tokens@.len(),
                Err(e) => arg_list(self.source(), i as int, plsql::args_tree(acc)) == Err::<(Seq<tree::Arg>, int), Failure>(e@),
            },
        decreases self.tokens@.len() - i, 33int,
    {
        let mut acc = acc;
        let mut pos: usize = i;
        let ghost due = arg_list(self.source(), i as int, plsql::args_tree(acc));
        loop
            invariant
                self.inv(),
                i <= pos <= self.tokens@.len(),
                due == arg_list(self.source(), pos as int, plsql::args_tree(acc)),
            decreases self.tokens@.len() - pos,
        {
            let i: usize = pos;
            let (x, i) = self.arg(i)?;
            if !self.is_sym(i, 0, ",") {
                return Ok((pushed_arg(acc, x), i));
            }
            let i: usize = i + 1;
            let ghost before = acc;
            let x = x;
            acc.push(x);
            assert(plsql::args_tree(acc) =~= plsql::args_tree(before).push(plsql::arg_tree(x)));
            pos = i;
        }
    }

    #[verifier::spinoff_prover]
    #[verifier::rlimit(100)]
    pub(crate) fn arg(&self, i: usize) -> (r: Result<(Arg, usize), OraError>)
        requires
            self.inv(),
            i <= self.tokens@.len(),
        ensures
            match r {
                Ok((v, j)) => arg(self.source(), i as int) == Ok::<(tree::Arg, int), Failure>((plsql::arg_tree(v), j as int)) && i + 1 <= j <= self.tokens@.len(),
                Err(e) => arg(self.source(), i as int) == Err::<(tree::Arg, int), Failure>(e@),
            },
        decreases self.tokens@.len() - i, 32int,
    {
        if self.is_ident(i, 0) && self.is_sym(i, 1, "=>") {
            let name = self.name(i);
            let (value, i) = self.expr(i + 2)?;
            return Ok((Arg { name: Some(name), value }, i));
        }
        let (value, i) = self.expr(i)?;
        Ok((Arg { name: None, value }, i))
    }

    /// Statements up to END, EXCEPTION, ELSIF, ELSE or WHEN.
    #[verifier::spinoff_prover]
    #[verifier::rlimit(100)]
    #[verifier::loop_isolation(false)]
    pub(crate) fn statements(&self, i: usize, acc: Vec<Stmt>) -> (r: Result<(Vec<Stmt>, usize), OraError>)
        requires
            self.inv(),
            i <= self.tokens@.len(),
        ensures
            match r {
                Ok((v, j)) => statements(self.source(), i as int, plsql::stmts_tree(acc)) == Ok::<(Seq<tree::Stmt>, int), Failure>((plsql::stmts_tree(v), j as int)) && i <= j <= self.tokens@.len(),
                Err(e) => statements(self.source(), i as int, plsql::stmts_tree(acc)) == Err::<(Seq<tree::Stmt>, int), Failure>(e@),
            },
        decreases self.tokens@.len() - i, 31int,
    {
        let mut acc = acc;
        let mut pos: usize = i;
        let ghost due = statements(self.source(), i as int, plsql::stmts_tree(acc));
        loop
            invariant
                self.inv(),
                i <= pos <= self.tokens@.len(),
                due == statements(self.source(), pos as int, plsql::stmts_tree(acc)),
            decreases self.tokens@.len() - pos,
        {
            let i: usize = pos;
            if i >= self.tokens.len() {
                return Err(expected_error("END"));
            }
            if self.list_ends(i) {
                if acc.len() == 0 {
                    return Err(expected_error("a statement"));
                }
                return Ok((acc, i));
            }
            let (s, i) = self.plsql_statement(i)?;
            let ghost before = acc;
            let x = s;
            acc.push(x);
            assert(plsql::stmts_tree(acc) =~= plsql::stmts_tree(before).push(plsql::stmt_tree(x)));
            pos = i;
        }
    }

    /// A statement with its label and its semicolon.
    #[verifier::spinoff_prover]
    #[verifier::rlimit(100)]
    pub(crate) fn plsql_statement(&self, i: usize) -> (r: Result<(Stmt, usize), OraError>)
        requires
            self.inv(),
            i <= self.tokens@.len(),
        ensures
            match r {
                Ok((v, j)) => plsql_statement(self.source(), i as int) == Ok::<(tree::Stmt, int), Failure>((plsql::stmt_tree(v), j as int)) && i + 1 <= j <= self.tokens@.len(),
                Err(e) => plsql_statement(self.source(), i as int) == Err::<(tree::Stmt, int), Failure>(e@),
            },
        decreases self.tokens@.len() - i, 30int,
    {
        let (label, i) = self.label(i)?;
        let (stmt, i) = self.bare_statement(i, label)?;
        if !self.is_sym(i, 0, ";") {
            return Err(expected_error(";"));
        }
        let i: usize = i + 1;
        Ok((stmt, i))
    }

    /// A statement without its label and its semicolon.
    #[verifier::spinoff_prover]
    #[verifier::rlimit(100)]
    pub(crate) fn bare_statement(&self, i: usize, label: Option<String>) -> (r: Result<(Stmt, usize), OraError>)
        requires
            self.inv(),
            i <= self.tokens@.len(),
        ensures
            match r {
                Ok((v, j)) => bare_statement(self.source(), i as int, ast::opt_text_tree(label)) == Ok::<(tree::Stmt, int), Failure>((plsql::stmt_tree(v), j as int)) && i + 1 <= j <= self.tokens@.len(),
                Err(e) => bare_statement(self.source(), i as int, ast::opt_text_tree(label)) == Err::<(tree::Stmt, int), Failure>(e@),
            },
        decreases self.tokens@.len() - i, 29int,
    {
        if i >= self.tokens.len() {
            return Err(expected_error("a statement"));
        }
        if self.is_bind(i, 0) {
            return self.bind_assignment(i);
        }
        if self.is_sym(i, 0, "(") || self.is_kw(i, 0, "SELECT") || self.is_kw(i, 0, "WITH") {
            return self.select_into(i);
        }
        if !self.is_word(i) {
            return Err(expected_error("a statement"));
        }
        if self.is_kw(i, 0, "NULL") || self.is_kw(i, 0, "IF") || self.is_kw(i, 0, "CASE") || self.is_kw(i, 0, "BEGIN") || self.is_kw(i, 0, "DECLARE") {
            return self.plain_statement(i);
        }
        if self.is_kw(i, 0, "LOOP") || self.is_kw(i, 0, "WHILE") || self.is_kw(i, 0, "FOR") {
            return self.loop_statement(i, label);
        }
        if self.is_kw(i, 0, "EXIT") || self.is_kw(i, 0, "CONTINUE") {
            return self.jump(i);
        }
        if self.is_kw(i, 0, "RETURN") || self.is_kw(i, 0, "RAISE") {
            return self.leave(i);
        }
        if self.is_kw(i, 0, "OPEN") || self.is_kw(i, 0, "FETCH") || self.is_kw(i, 0, "CLOSE") {
            return self.cursor_statement(i);
        }
        self.sql_or_call(i)
    }

    /// NULL, IF, CASE or a block.
    #[verifier::spinoff_prover]
    #[verifier::rlimit(100)]
    pub(crate) fn plain_statement(&self, i: usize) -> (r: Result<(Stmt, usize), OraError>)
        requires
            self.inv(),
            i <= self.tokens@.len(),
        ensures
            match r {
                Ok((v, j)) => plain_statement(self.source(), i as int) == Ok::<(tree::Stmt, int), Failure>((plsql::stmt_tree(v), j as int)) && i + 1 <= j <= self.tokens@.len(),
                Err(e) => plain_statement(self.source(), i as int) == Err::<(tree::Stmt, int), Failure>(e@),
            },
        decreases self.tokens@.len() - i, 28int,
    {
        if self.is_kw(i, 0, "NULL") {
            let i: usize = i + 1;
            return Ok((Stmt::Null, i));
        }
        if self.is_kw(i, 0, "IF") {
            return self.if_statement(i + 1);
        }
        if self.is_kw(i, 0, "CASE") {
            return self.case_statement(i + 1);
        }
        let (b, i) = self.block(i)?;
        Ok((Stmt::Block(b), i))
    }

    /// LOOP, WHILE or FOR.
    #[verifier::spinoff_prover]
    #[verifier::rlimit(100)]
    pub(crate) fn loop_statement(&self, i: usize, label: Option<String>) -> (r: Result<(Stmt, usize), OraError>)
        requires
            self.inv(),
            i <= self.tokens@.len(),
        ensures
            match r {
                Ok((v, j)) => loop_statement(self.source(), i as int, ast::opt_text_tree(label)) == Ok::<(tree::Stmt, int), Failure>((plsql::stmt_tree(v), j as int)) && i + 1 <= j <= self.tokens@.len(),
                Err(e) => loop_statement(self.source(), i as int, ast::opt_text_tree(label)) == Err::<(tree::Stmt, int), Failure>(e@),
            },
        decreases self.tokens@.len() - i, 28int,
    {
        if self.is_kw(i, 0, "WHILE") {
            let (cond, i) = self.expr(i + 1)?;
            let (body, i) = self.loop_body(i)?;
            return Ok((Stmt::While { label, cond, body }, i));
        }
        if self.is_kw(i, 0, "FOR") {
            return self.for_statement(i + 1, label);
        }
        let (body, i) = self.loop_body(i)?;
        Ok((Stmt::Loop { label, body }, i))
    }

    /// RETURN or RAISE.
    #[verifier::spinoff_prover]
    #[verifier::rlimit(100)]
    pub(crate) fn leave(&self, i: usize) -> (r: Result<(Stmt, usize), OraError>)
        requires
            self.inv(),
            i <= self.tokens@.len(),
        ensures
            match r {
                Ok((v, j)) => leave(self.source(), i as int) == Ok::<(tree::Stmt, int), Failure>((plsql::stmt_tree(v), j as int)) && i + 1 <= j <= self.tokens@.len(),
                Err(e) => leave(self.source(), i as int) == Err::<(tree::Stmt, int), Failure>(e@),
            },
        decreases self.tokens@.len() - i, 28int,
    {
        if self.is_kw(i, 0, "RETURN") {
            if self.is_sym(i, 1, ";") {
                let i: usize = i + 1;
                return Ok((Stmt::Return(None), i));
            }
            let (e, i) = self.expr(i + 1)?;
            return Ok((Stmt::Return(Some(e)), i));
        }
        if !self.is_kw(i, 0, "RAISE") {
            return Err(OraError::new(905, "missing keyword"));
        }
        let i: usize = i + 1;
        if self.is_sym(i, 0, ";") {
            return Ok((Stmt::Raise(None), i));
        }
        let (name, i) = self.dotted_name(i)?;
        Ok((Stmt::Raise(Some(name)), i))
    }

    /// OPEN, FETCH or CLOSE.
    #[verifier::spinoff_prover]
    #[verifier::rlimit(100)]
    pub(crate) fn cursor_statement(&self, i: usize) -> (r: Result<(Stmt, usize), OraError>)
        requires
            self.inv(),
            i <= self.tokens@.len(),
        ensures
            match r {
                Ok((v, j)) => cursor_statement(self.source(), i as int) == Ok::<(tree::Stmt, int), Failure>((plsql::stmt_tree(v), j as int)) && i + 1 <= j <= self.tokens@.len(),
                Err(e) => cursor_statement(self.source(), i as int) == Err::<(tree::Stmt, int), Failure>(e@),
            },
        decreases self.tokens@.len() - i, 28int,
    {
        if self.is_kw(i, 0, "OPEN") {
            let (cursor, i) = self.ident(i + 1)?;
            if self.is_kw(i, 0, "FOR") {
                return Err(unsupported_error("REF CURSOR"));
            }
            let (args, i) = self.args(i)?;
            return Ok((Stmt::Open { cursor, args: values_of(args) }, i));
        }
        if self.is_kw(i, 0, "FETCH") {
            let (cursor, i) = self.ident(i + 1)?;
            if self.is_kw(i, 0, "BULK") {
                return Err(unsupported_error("BULK COLLECT"));
            }
            if !self.is_kw(i, 0, "INTO") {
                return Err(OraError::new(905, "missing keyword"));
            }
            let i: usize = i + 1;
            let (into, i) = self.targets(i)?;
            return Ok((Stmt::Fetch { cursor, into }, i));
        }
        if !self.is_kw(i, 0, "CLOSE") {
            return Err(OraError::new(905, "missing keyword"));
        }
        let i: usize = i + 1;
        let (cursor, i) = self.ident(i)?;
        Ok((Stmt::Close { cursor }, i))
    }

    /// SQL, an assignment or a call.
    #[verifier::spinoff_prover]
    #[verifier::rlimit(100)]
    pub(crate) fn sql_or_call(&self, i: usize) -> (r: Result<(Stmt, usize), OraError>)
        requires
            self.inv(),
            i <= self.tokens@.len(),
        ensures
            match r {
                Ok((v, j)) => sql_or_call(self.source(), i as int) == Ok::<(tree::Stmt, int), Failure>((plsql::stmt_tree(v), j as int)) && i + 1 <= j <= self.tokens@.len(),
                Err(e) => sql_or_call(self.source(), i as int) == Err::<(tree::Stmt, int), Failure>(e@),
            },
        decreases self.tokens@.len() - i, 28int,
    {
        if self.is_kw(i, 0, "INSERT") || self.is_kw(i, 0, "UPDATE") || self.is_kw(i, 0, "DELETE") || self.is_kw(i, 0, "COMMIT") || self.is_kw(i, 0, "ROLLBACK") {
            let (stmt, i) = self.dml(i)?;
            return Ok((Stmt::Sql { stmt, into: plsql::no_targets() }, i));
        }
        if self.is_kw(i, 0, "SAVEPOINT") {
            return Err(unsupported_error("savepoint in PL/SQL"));
        }
        if self.is_kw(i, 0, "MERGE") {
            return Err(unsupported_error("merge in PL/SQL"));
        }
        if self.is_kw(i, 0, "LOCK") {
            return Err(unsupported_error("lock in PL/SQL"));
        }
        if self.is_kw(i, 0, "SET") {
            return Err(unsupported_error("set in PL/SQL"));
        }
        if self.is_kw(i, 0, "EXECUTE") && self.is_kw(i, 1, "IMMEDIATE") {
            return self.execute_immediate(i + 2);
        }
        if self.is_kw(i, 0, "GOTO") {
            return Err(unsupported_error("goto"));
        }
        if self.is_kw(i, 0, "FORALL") {
            return Err(unsupported_error("forall"));
        }
        if self.is_kw(i, 0, "PIPE") {
            return Err(unsupported_error("pipe"));
        }
        self.assignment_or_call(i)
    }

    #[verifier::spinoff_prover]
    #[verifier::rlimit(100)]
    pub(crate) fn bind_assignment(&self, i: usize) -> (r: Result<(Stmt, usize), OraError>)
        requires
            self.inv(),
            i <= self.tokens@.len(),
        ensures
            match r {
                Ok((v, j)) => bind_assignment(self.source(), i as int) == Ok::<(tree::Stmt, int), Failure>((plsql::stmt_tree(v), j as int)) && i + 1 <= j <= self.tokens@.len(),
                Err(e) => bind_assignment(self.source(), i as int) == Err::<(tree::Stmt, int), Failure>(e@),
            },
        decreases self.tokens@.len() - i, 20int,
    {
        if !self.is_bind(i, 0) {
            return Err(expected_error(":="));
        }
        let n = self.bind(i);
        let i: usize = i + 1;
        if !self.is_sym(i, 0, ":=") {
            return Err(expected_error(":="));
        }
        let i: usize = i + 1;
        let (value, i) = self.expr(i)?;
        Ok((Stmt::Assign { target: Target::Bind(n), value }, i))
    }

    /// `SELECT ... INTO`.
    #[verifier::spinoff_prover]
    #[verifier::rlimit(100)]
    pub(crate) fn select_into(&self, i: usize) -> (r: Result<(Stmt, usize), OraError>)
        requires
            self.inv(),
            i <= self.tokens@.len(),
        ensures
            match r {
                Ok((v, j)) => select_into(self.source(), i as int) == Ok::<(tree::Stmt, int), Failure>((plsql::stmt_tree(v), j as int)) && i + 1 <= j <= self.tokens@.len(),
                Err(e) => select_into(self.source(), i as int) == Err::<(tree::Stmt, int), Failure>(e@),
            },
        decreases self.tokens@.len() - i, 25int,
    {
        let (found, i) = self.select(i, true)?;
        let q = found.0;
        let into = found.1;
        if let Some(exprs) = into {
            let into = targets_from(exprs)?;
            return Ok((Stmt::Sql { stmt: Statement::Query(q), into }, i));
        }
        Err(pls_error(428, "an INTO clause is expected in this SELECT statement"))
    }

    /// What FETCH and EXECUTE IMMEDIATE fill.
    #[verifier::spinoff_prover]
    #[verifier::rlimit(100)]
    pub(crate) fn targets(&self, i: usize) -> (r: Result<(Vec<Target>, usize), OraError>)
        requires
            self.inv(),
            i <= self.tokens@.len(),
        ensures
            match r {
                Ok((v, j)) => targets(self.source(), i as int) == Ok::<(Seq<tree::Target>, int), Failure>((plsql::targets_tree(v), j as int)) && i + 1 <= j <= self.tokens@.len(),
                Err(e) => targets(self.source(), i as int) == Err::<(Seq<tree::Target>, int), Failure>(e@),
            },
        decreases self.tokens@.len() - i, 20int,
    {
        let (exprs, i) = self.target_list(i, ast::no_exprs())?;
        let into = targets_from(exprs)?;
        Ok((into, i))
    }

    /// IF, behind its keyword.
    #[verifier::spinoff_prover]
    #[verifier::rlimit(100)]
    pub(crate) fn if_statement(&self, i: usize) -> (r: Result<(Stmt, usize), OraError>)
        requires
            self.inv(),
            i <= self.tokens@.len(),
        ensures
            match r {
                Ok((v, j)) => if_statement(self.source(), i as int) == Ok::<(tree::Stmt, int), Failure>((plsql::stmt_tree(v), j as int)) && i + 1 <= j <= self.tokens@.len(),
                Err(e) => if_statement(self.source(), i as int) == Err::<(tree::Stmt, int), Failure>(e@),
            },
        decreases self.tokens@.len() - i, 33int,
    {
        let (first, i) = self.guarded(i)?;
        let (rest, i) = self.if_rest(i, one_branch(first), None)?;
        let (end, i) = self.end_if(i)?;
        Ok((Stmt::If { branches: rest.0, else_: rest.1 }, i))
    }

    /// `condition THEN statements`
    #[verifier::spinoff_prover]
    #[verifier::rlimit(100)]
    pub(crate) fn guarded(&self, i: usize) -> (r: Result<((Expr, Vec<Stmt>), usize), OraError>)
        requires
            self.inv(),
            i <= self.tokens@.len(),
        ensures
            match r {
                Ok((v, j)) => guarded(self.source(), i as int) == Ok::<((tree::Expr, Seq<tree::Stmt>), int), Failure>(((ast::expr_tree(v.0), plsql::stmts_tree(v.1)), j as int)) && i + 1 <= j <= self.tokens@.len(),
                Err(e) => guarded(self.source(), i as int) == Err::<((tree::Expr, Seq<tree::Stmt>), int), Failure>(e@),
            },
        decreases self.tokens@.len() - i, 32int,
    {
        let (cond, i) = self.expr(i)?;
        if !self.is_kw(i, 0, "THEN") {
            return Err(OraError::new(905, "missing keyword"));
        }
        let i: usize = i + 1;
        let (body, i) = self.statements(i, plsql::no_stmts())?;
        Ok(((cond, body), i))
    }

    #[verifier::spinoff_prover]
    #[verifier::rlimit(100)]
    pub(crate) fn end_if(&self, i: usize) -> (r: Result<((), usize), OraError>)
        requires
            self.inv(),
            i <= self.tokens@.len(),
        ensures
            match r {
                Ok((v, j)) => end_if(self.source(), i as int) == Ok::<((), int), Failure>((v, j as int)) && i + 1 <= j <= self.tokens@.len(),
                Err(e) => end_if(self.source(), i as int) == Err::<((), int), Failure>(e@),
            },
        decreases self.tokens@.len() - i, 0int,
    {
        if !self.is_kw(i, 0, "END") {
            return Err(OraError::new(905, "missing keyword"));
        }
        let i: usize = i + 1;
        if !self.is_kw(i, 0, "IF") {
            return Err(OraError::new(905, "missing keyword"));
        }
        let i: usize = i + 1;
        Ok(((), i))
    }

    /// ELSIF and ELSE; of several ELSE the last one counts.
    #[verifier::spinoff_prover]
    #[verifier::rlimit(100)]
    #[verifier::loop_isolation(false)]
    pub(crate) fn if_rest(&self, i: usize, branches: Vec<(Expr, Vec<Stmt>)>, else_: Option<Vec<Stmt>>) -> (r: Result<((Vec<(Expr, Vec<Stmt>)>, Option<Vec<Stmt>>), usize), OraError>)
        requires
            self.inv(),
            i <= self.tokens@.len(),
        ensures
            match r {
                Ok((v, j)) => if_rest(self.source(), i as int, plsql::expr_stmtss_tree(branches), plsql::opt_stmts_tree(else_)) == Ok::<((Seq<(tree::Expr, Seq<tree::Stmt>)>, Option<Seq<tree::Stmt>>), int), Failure>(((plsql::expr_stmtss_tree(v.0), plsql::opt_stmts_tree(v.1)), j as int)) && i <= j <= self.tokens@.len(),
                Err(e) => if_rest(self.source(), i as int, plsql::expr_stmtss_tree(branches), plsql::opt_stmts_tree(else_)) == Err::<((Seq<(tree::Expr, Seq<tree::Stmt>)>, Option<Seq<tree::Stmt>>), int), Failure>(e@),
            },
        decreases self.tokens@.len() - i, 31int,
    {
        let mut branches = branches;
        let mut else_ = else_;
        let mut pos: usize = i;
        let ghost due = if_rest(self.source(), i as int, plsql::expr_stmtss_tree(branches), plsql::opt_stmts_tree(else_));
        loop
            invariant
                self.inv(),
                i <= pos <= self.tokens@.len(),
                due == if_rest(self.source(), pos as int, plsql::expr_stmtss_tree(branches), plsql::opt_stmts_tree(else_)),
            decreases self.tokens@.len() - pos,
        {
            let i: usize = pos;
            if self.is_kw(i, 0, "ELSIF") {
                let (branch, i) = self.guarded(i + 1)?;
                let ghost before = branches;
                let x = branch;
                branches.push(x);
                assert(plsql::expr_stmtss_tree(branches) =~= plsql::expr_stmtss_tree(before).push((ast::expr_tree(x.0), plsql::stmts_tree(x.1))));
                pos = i;
                continue;
            }
            if self.is_kw(i, 0, "ELSE") {
                let (body, i) = self.statements(i + 1, plsql::no_stmts())?;
                else_ = Some(body);
                pos = i;
                continue;
            }
            return Ok(((branches, else_), i));
        }
    }

    /// CASE, behind its keyword.
    #[verifier::spinoff_prover]
    #[verifier::rlimit(100)]
    pub(crate) fn case_statement(&self, i: usize) -> (r: Result<(Stmt, usize), OraError>)
        requires
            self.inv(),
            i <= self.tokens@.len(),
        ensures
            match r {
                Ok((v, j)) => case_statement(self.source(), i as int) == Ok::<(tree::Stmt, int), Failure>((plsql::stmt_tree(v), j as int)) && i + 1 <= j <= self.tokens@.len(),
                Err(e) => case_statement(self.source(), i as int) == Err::<(tree::Stmt, int), Failure>(e@),
            },
        decreases self.tokens@.len() - i, 33int,
    {
        let (operand, i) = self.case_statement_operand(i)?;
        let (cases, i) = self.cases(i)?;
        let (end, i) = self.end_case(i)?;
        Ok((Stmt::Case { operand, whens: cases.0, else_: cases.1 }, i))
    }

    /// `WHEN ... THEN ... [ELSE ...]`
    #[verifier::spinoff_prover]
    #[verifier::rlimit(100)]
    pub(crate) fn cases(&self, i: usize) -> (r: Result<((Vec<(Expr, Vec<Stmt>)>, Option<Vec<Stmt>>), usize), OraError>)
        requires
            self.inv(),
            i <= self.tokens@.len(),
        ensures
            match r {
                Ok((v, j)) => cases(self.source(), i as int) == Ok::<((Seq<(tree::Expr, Seq<tree::Stmt>)>, Option<Seq<tree::Stmt>>), int), Failure>(((plsql::expr_stmtss_tree(v.0), plsql::opt_stmts_tree(v.1)), j as int)) && i <= j <= self.tokens@.len(),
                Err(e) => cases(self.source(), i as int) == Err::<((Seq<(tree::Expr, Seq<tree::Stmt>)>, Option<Seq<tree::Stmt>>), int), Failure>(e@),
            },
        decreases self.tokens@.len() - i, 32int,
    {
        let (whens, i) = self.when_list(i, plsql::no_expr_stmtss())?;
        let (else_, i) = self.else_clause_of_cases(i)?;
        Ok(((whens, else_), i))
    }

    #[verifier::spinoff_prover]
    #[verifier::rlimit(100)]
    pub(crate) fn end_case(&self, i: usize) -> (r: Result<((), usize), OraError>)
        requires
            self.inv(),
            i <= self.tokens@.len(),
        ensures
            match r {
                Ok((v, j)) => end_case(self.source(), i as int) == Ok::<((), int), Failure>((v, j as int)) && i + 1 <= j <= self.tokens@.len(),
                Err(e) => end_case(self.source(), i as int) == Err::<((), int), Failure>(e@),
            },
        decreases self.tokens@.len() - i, 0int,
    {
        if !self.is_kw(i, 0, "END") {
            return Err(OraError::new(905, "missing keyword"));
        }
        let i: usize = i + 1;
        if !self.is_kw(i, 0, "CASE") {
            return Err(OraError::new(905, "missing keyword"));
        }
        let i: usize = i + 1;
        let i: usize = if self.is_ident(i, 0) {
            i + 1
        } else {
            i
        };
        Ok(((), i))
    }

    #[verifier::spinoff_prover]
    #[verifier::rlimit(100)]
    #[verifier::loop_isolation(false)]
    pub(crate) fn when_list(&self, i: usize, acc: Vec<(Expr, Vec<Stmt>)>) -> (r: Result<(Vec<(Expr, Vec<Stmt>)>, usize), OraError>)
        requires
            self.inv(),
            i <= self.tokens@.len(),
        ensures
            match r {
                Ok((v, j)) => when_list(self.source(), i as int, plsql::expr_stmtss_tree(acc)) == Ok::<(Seq<(tree::Expr, Seq<tree::Stmt>)>, int), Failure>((plsql::expr_stmtss_tree(v), j as int)) && i <= j <= self.tokens@.len(),
                Err(e) => when_list(self.source(), i as int, plsql::expr_stmtss_tree(acc)) == Err::<(Seq<(tree::Expr, Seq<tree::Stmt>)>, int), Failure>(e@),
            },
        decreases self.tokens@.len() - i, 31int,
    {
        let mut acc = acc;
        let mut pos: usize = i;
        let ghost due = when_list(self.source(), i as int, plsql::expr_stmtss_tree(acc));
        loop
            invariant
                self.inv(),
                i <= pos <= self.tokens@.len(),
                due == when_list(self.source(), pos as int, plsql::expr_stmtss_tree(acc)),
            decreases self.tokens@.len() - pos,
        {
            let i: usize = pos;
            if !self.is_kw(i, 0, "WHEN") {
                return Ok((acc, i));
            }
            let (w, i) = self.guarded(i + 1)?;
            let ghost before = acc;
            let x = w;
            acc.push(x);
            assert(plsql::expr_stmtss_tree(acc) =~= plsql::expr_stmtss_tree(before).push((ast::expr_tree(x.0), plsql::stmts_tree(x.1))));
            pos = i;
        }
    }

    /// FOR, behind its keyword: over a range, a query or a cursor.
    #[verifier::spinoff_prover]
    #[verifier::rlimit(100)]
    pub(crate) fn for_statement(&self, i: usize, label: Option<String>) -> (r: Result<(Stmt, usize), OraError>)
        requires
            self.inv(),
            i <= self.tokens@.len(),
        ensures
            match r {
                Ok((v, j)) => for_statement(self.source(), i as int, ast::opt_text_tree(label)) == Ok::<(tree::Stmt, int), Failure>((plsql::stmt_tree(v), j as int)) && i + 1 <= j <= self.tokens@.len(),
                Err(e) => for_statement(self.source(), i as int, ast::opt_text_tree(label)) == Err::<(tree::Stmt, int), Failure>(e@),
            },
        decreases self.tokens@.len() - i, 28int,
    {
        let (var, i) = self.ident(i)?;
        if !self.is_kw(i, 0, "IN") {
            return Err(OraError::new(905, "missing keyword"));
        }
        let i: usize = i + 1;
        let reverse = self.is_kw(i, 0, "REVERSE");
        let i: usize = if reverse {
            i + 1
        } else {
            i
        };
        self.for_source(i, label, var, reverse)
    }

    /// What a FOR loop runs over, and its body.
    #[verifier::spinoff_prover]
    #[verifier::rlimit(100)]
    pub(crate) fn for_source(&self, i: usize, label: Option<String>, var: String, reverse: bool) -> (r: Result<(Stmt, usize), OraError>)
        requires
            self.inv(),
            i <= self.tokens@.len(),
        ensures
            match r {
                Ok((v, j)) => for_source(self.source(), i as int, ast::opt_text_tree(label), var@, reverse) == Ok::<(tree::Stmt, int), Failure>((plsql::stmt_tree(v), j as int)) && i + 1 <= j <= self.tokens@.len(),
                Err(e) => for_source(self.source(), i as int, ast::opt_text_tree(label), var@, reverse) == Err::<(tree::Stmt, int), Failure>(e@),
            },
        decreases self.tokens@.len() - i, 28int,
    {
        if !reverse && self.is_sym(i, 0, "(") && (self.is_kw(i, 1, "SELECT") || self.is_kw(i, 1, "WITH")) {
            return self.for_query(i + 1, label, var);
        }
        let (low, i) = self.additive(i)?;
        self.for_rest(i, label, var, reverse, low)
    }

    /// A loop over a query, behind the bracket.
    #[verifier::spinoff_prover]
    #[verifier::rlimit(100)]
    pub(crate) fn for_query(&self, i: usize, label: Option<String>, var: String) -> (r: Result<(Stmt, usize), OraError>)
        requires
            self.inv(),
            i <= self.tokens@.len(),
        ensures
            match r {
                Ok((v, j)) => for_query(self.source(), i as int, ast::opt_text_tree(label), var@) == Ok::<(tree::Stmt, int), Failure>((plsql::stmt_tree(v), j as int)) && i + 1 <= j <= self.tokens@.len(),
                Err(e) => for_query(self.source(), i as int, ast::opt_text_tree(label), var@) == Err::<(tree::Stmt, int), Failure>(e@),
            },
        decreases self.tokens@.len() - i, 28int,
    {
        let (q, i) = self.query(i)?;
        if !self.is_sym(i, 0, ")") {
            return Err(OraError::new(907, "missing right parenthesis"));
        }
        let i: usize = i + 1;
        let (body, i) = self.loop_body(i)?;
        Ok((Stmt::ForCursor { label, var, source: CursorSource::Query(q), body }, i))
    }

    /// A loop over a range or a cursor, behind its first sum.
    #[verifier::spinoff_prover]
    #[verifier::rlimit(100)]
    pub(crate) fn for_rest(&self, i: usize, label: Option<String>, var: String, reverse: bool, low: Expr) -> (r: Result<(Stmt, usize), OraError>)
        requires
            self.inv(),
            i <= self.tokens@.len(),
        ensures
            match r {
                Ok((v, j)) => for_rest(self.source(), i as int, ast::opt_text_tree(label), var@, reverse, ast::expr_tree(low)) == Ok::<(tree::Stmt, int), Failure>((plsql::stmt_tree(v), j as int)) && i + 1 <= j <= self.tokens@.len(),
                Err(e) => for_rest(self.source(), i as int, ast::opt_text_tree(label), var@, reverse, ast::expr_tree(low)) == Err::<(tree::Stmt, int), Failure>(e@),
            },
        decreases self.tokens@.len() - i, 28int,
    {
        if self.is_sym(i, 0, "..") {
            let (high, i) = self.additive(i + 1)?;
            let (body, i) = self.loop_body(i)?;
            return Ok((Stmt::ForRange { label, var, reverse, low, high, body }, i));
        }
        let source = source_from(low)?;
        let (body, i) = self.loop_body(i)?;
        Ok((Stmt::ForCursor { label, var, source, body }, i))
    }

    /// EXIT or CONTINUE.
    #[verifier::spinoff_prover]
    #[verifier::rlimit(100)]
    pub(crate) fn jump(&self, i: usize) -> (r: Result<(Stmt, usize), OraError>)
        requires
            self.inv(),
            i <= self.tokens@.len(),
        ensures
            match r {
                Ok((v, j)) => jump(self.source(), i as int) == Ok::<(tree::Stmt, int), Failure>((plsql::stmt_tree(v), j as int)) && i + 1 <= j <= self.tokens@.len(),
                Err(e) => jump(self.source(), i as int) == Err::<(tree::Stmt, int), Failure>(e@),
            },
        decreases self.tokens@.len() - i, 28int,
    {
        if !self.is_kw(i, 0, "EXIT") && !self.is_kw(i, 0, "CONTINUE") {
            return Err(expected_error("a statement"));
        }
        let exit = self.is_kw(i, 0, "EXIT");
        let i: usize = i + 1;
        let (label, i) = self.jump_label(i)?;
        let (when, i) = self.when_clause(i)?;
        if exit {
            return Ok((Stmt::Exit { label, when }, i));
        }
        Ok((Stmt::Continue { label, when }, i))
    }

    /// EXECUTE IMMEDIATE, behind its keywords.
    #[verifier::spinoff_prover]
    #[verifier::rlimit(100)]
    pub(crate) fn execute_immediate(&self, i: usize) -> (r: Result<(Stmt, usize), OraError>)
        requires
            self.inv(),
            i <= self.tokens@.len(),
        ensures
            match r {
                Ok((v, j)) => execute_immediate(self.source(), i as int) == Ok::<(tree::Stmt, int), Failure>((plsql::stmt_tree(v), j as int)) && i + 1 <= j <= self.tokens@.len(),
                Err(e) => execute_immediate(self.source(), i as int) == Err::<(tree::Stmt, int), Failure>(e@),
            },
        decreases self.tokens@.len() - i, 28int,
    {
        let (sql, i) = self.expr(i)?;
        let (into, i) = self.execute_immediate_into(i)?;
        let (using, i) = self.execute_immediate_using(i)?;
        if self.is_kw(i, 0, "RETURNING") || self.is_kw(i, 0, "RETURN") {
            return Err(unsupported_error("RETURNING in EXECUTE IMMEDIATE"));
        }
        Ok((Stmt::ExecuteImmediate { sql, into, using }, i))
    }

    #[verifier::spinoff_prover]
    #[verifier::rlimit(100)]
    #[verifier::loop_isolation(false)]
    pub(crate) fn using(&self, i: usize, acc: Vec<Expr>) -> (r: Result<(Vec<Expr>, usize), OraError>)
        requires
            self.inv(),
            i <= self.tokens@.len(),
        ensures
            match r {
                Ok((v, j)) => using(self.source(), i as int, ast::exprs_tree(acc)) == Ok::<(Seq<tree::Expr>, int), Failure>((ast::exprs_tree(v), j as int)) && i + 1 <= j <= self.tokens@.len(),
                Err(e) => using(self.source(), i as int, ast::exprs_tree(acc)) == Err::<(Seq<tree::Expr>, int), Failure>(e@),
            },
        decreases self.tokens@.len() - i, 27int,
    {
        let mut acc = acc;
        let mut pos: usize = i;
        let ghost due = using(self.source(), i as int, ast::exprs_tree(acc));
        loop
            invariant
                self.inv(),
                i <= pos <= self.tokens@.len(),
                due == using(self.source(), pos as int, ast::exprs_tree(acc)),
            decreases self.tokens@.len() - pos,
        {
            let i: usize = pos;
            let (e, i) = self.using_item(i)?;
            if !self.is_sym(i, 0, ",") {
                return Ok((pushed_expr(acc, e), i));
            }
            let i: usize = i + 1;
            let ghost before = acc;
            let x = e;
            acc.push(x);
            assert(ast::exprs_tree(acc) =~= ast::exprs_tree(before).push(ast::expr_tree(x)));
            pos = i;
        }
    }

    #[verifier::spinoff_prover]
    #[verifier::rlimit(100)]
    pub(crate) fn using_item(&self, i: usize) -> (r: Result<(Expr, usize), OraError>)
        requires
            self.inv(),
            i <= self.tokens@.len(),
        ensures
            match r {
                Ok((v, j)) => using_item(self.source(), i as int) == Ok::<(tree::Expr, int), Failure>((ast::expr_tree(v), j as int)) && i + 1 <= j <= self.tokens@.len(),
                Err(e) => using_item(self.source(), i as int) == Err::<(tree::Expr, int), Failure>(e@),
            },
        decreases self.tokens@.len() - i, 26int,
    {
        if self.is_kw(i, 0, "OUT") || (self.is_kw(i, 0, "IN") && self.is_kw(i, 1, "OUT")) {
            return Err(unsupported_error("OUT binds in EXECUTE IMMEDIATE"));
        }
        let i: usize = if self.is_kw(i, 0, "IN") {
            i + 1
        } else {
            i
        };
        self.expr(i)
    }

    #[verifier::spinoff_prover]
    #[verifier::rlimit(100)]
    pub(crate) fn assignment_or_call(&self, i: usize) -> (r: Result<(Stmt, usize), OraError>)
        requires
            self.inv(),
            i <= self.tokens@.len(),
        ensures
            match r {
                Ok((v, j)) => assignment_or_call(self.source(), i as int) == Ok::<(tree::Stmt, int), Failure>((plsql::stmt_tree(v), j as int)) && i + 1 <= j <= self.tokens@.len(),
                Err(e) => assignment_or_call(self.source(), i as int) == Err::<(tree::Stmt, int), Failure>(e@),
            },
        decreases self.tokens@.len() - i, 27int,
    {
        let (name, i) = self.dotted_name(i)?;
        if self.is_sym(i, 0, ":=") {
            let target = target_from(&name)?;
            let (value, i) = self.expr(i + 1)?;
            return Ok((Stmt::Assign { target, value }, i));
        }
        let (args, i) = self.args(i)?;
        Ok((Stmt::Call { name, args }, i))
    }

    /// `LOOP statements END LOOP [label]`
    #[verifier::spinoff_prover]
    #[verifier::rlimit(100)]
    pub(crate) fn loop_body(&self, i: usize) -> (r: Result<(Vec<Stmt>, usize), OraError>)
        requires
            self.inv(),
            i <= self.tokens@.len(),
        ensures
            match r {
                Ok((v, j)) => loop_body(self.source(), i as int) == Ok::<(Seq<tree::Stmt>, int), Failure>((plsql::stmts_tree(v), j as int)) && i + 1 <= j <= self.tokens@.len(),
                Err(e) => loop_body(self.source(), i as int) == Err::<(Seq<tree::Stmt>, int), Failure>(e@),
            },
        decreases self.tokens@.len() - i, 27int,
    {
        if !self.is_kw(i, 0, "LOOP") {
            return Err(expected_error("LOOP"));
        }
        let i: usize = i + 1;
        let (body, i) = self.statements(i, plsql::no_stmts())?;
        if !self.is_kw(i, 0, "END") {
            return Err(OraError::new(905, "missing keyword"));
        }
        let i: usize = i + 1;
        if !self.is_kw(i, 0, "LOOP") {
            return Err(OraError::new(905, "missing keyword"));
        }
        let i: usize = i + 1;
        let i: usize = if self.is_ident(i, 0) {
            i + 1
        } else {
            i
        };
        Ok((body, i))
    }

    #[verifier::spinoff_prover]
    #[verifier::rlimit(100)]
    pub(crate) fn block_decls(&self, i: usize) -> (r: Result<(Vec<Decl>, usize), OraError>)
        requires
            self.inv(),
            i <= self.tokens@.len(),
        ensures
            match r {
                Ok((v, j)) => block_decls(self.source(), i as int) == Ok::<(Seq<tree::Decl>, int), Failure>((plsql::decls_tree(v), j as int)) && i <= j <= self.tokens@.len(),
                Err(e) => block_decls(self.source(), i as int) == Err::<(Seq<tree::Decl>, int), Failure>(e@),
            },
        decreases self.tokens@.len() - i, 0int,
    {
        if !self.is_kw(i, 0, "DECLARE") {
            return Ok((plsql::no_decls(), i));
        }
        self.declarations(i + 1, plsql::no_decls())
    }

    #[verifier::spinoff_prover]
    #[verifier::rlimit(100)]
    pub(crate) fn block_parts_handlers(&self, i: usize) -> (r: Result<(Vec<Handler>, usize), OraError>)
        requires
            self.inv(),
            i <= self.tokens@.len(),
        ensures
            match r {
                Ok((v, j)) => block_parts_handlers(self.source(), i as int) == Ok::<(Seq<tree::Handler>, int), Failure>((plsql::handlers_tree(v), j as int)) && i <= j <= self.tokens@.len(),
                Err(e) => block_parts_handlers(self.source(), i as int) == Err::<(Seq<tree::Handler>, int), Failure>(e@),
            },
        decreases self.tokens@.len() - i, 0int,
    {
        if !self.is_kw(i, 0, "EXCEPTION") {
            return Ok((plsql::no_handlers(), i));
        }
        self.handlers(i + 1, plsql::no_handlers())
    }

    #[verifier::spinoff_prover]
    #[verifier::rlimit(100)]
    pub(crate) fn default_clause(&self, i: usize) -> (r: Result<(Option<Expr>, usize), OraError>)
        requires
            self.inv(),
            i <= self.tokens@.len(),
        ensures
            match r {
                Ok((v, j)) => default_clause(self.source(), i as int) == Ok::<(Option<tree::Expr>, int), Failure>((ast::opt_expr_tree(v), j as int)) && i <= j <= self.tokens@.len(),
                Err(e) => default_clause(self.source(), i as int) == Err::<(Option<tree::Expr>, int), Failure>(e@),
            },
        decreases self.tokens@.len() - i, 0int,
    {
        if !(self.is_sym(i, 0, ":=") || self.is_kw(i, 0, "DEFAULT")) {
            return Ok((None, i));
        }
        let (v, i) = self.expr(i + 1)?;
        Ok((Some(v), i))
    }

    #[verifier::spinoff_prover]
    #[verifier::rlimit(100)]
    pub(crate) fn anchored_type_second(&self, i: usize) -> (r: Result<(Option<String>, usize), OraError>)
        requires
            self.inv(),
            i <= self.tokens@.len(),
        ensures
            match r {
                Ok((v, j)) => anchored_type_second(self.source(), i as int) == Ok::<(Option<Seq<char>>, int), Failure>((ast::opt_text_tree(v), j as int)) && i <= j <= self.tokens@.len(),
                Err(e) => anchored_type_second(self.source(), i as int) == Err::<(Option<Seq<char>>, int), Failure>(e@),
            },
        decreases self.tokens@.len() - i, 0int,
    {
        if !self.is_sym(i, 0, ".") {
            return Ok((None, i));
        }
        let (v, i) = self.ident(i + 1)?;
        Ok((Some(v), i))
    }

    #[verifier::spinoff_prover]
    #[verifier::rlimit(100)]
    pub(crate) fn number_type_scale(&self, i: usize) -> (r: Result<(i64, usize), OraError>)
        requires
            self.inv(),
            i <= self.tokens@.len(),
        ensures
            match r {
                Ok((v, j)) => number_type_scale(self.source(), i as int) == Ok::<(int, int), Failure>((v as int, j as int)) && i <= j <= self.tokens@.len(),
                Err(e) => number_type_scale(self.source(), i as int) == Err::<(int, int), Failure>(e@),
            },
        decreases self.tokens@.len() - i, 0int,
    {
        if !self.is_sym(i, 0, ",") {
            return Ok((0, i));
        }
        self.integer(i + 1)
    }

    #[verifier::spinoff_prover]
    #[verifier::rlimit(100)]
    pub(crate) fn case_statement_operand(&self, i: usize) -> (r: Result<(Option<Expr>, usize), OraError>)
        requires
            self.inv(),
            i <= self.tokens@.len(),
        ensures
            match r {
                Ok((v, j)) => case_statement_operand(self.source(), i as int) == Ok::<(Option<tree::Expr>, int), Failure>((ast::opt_expr_tree(v), j as int)) && i <= j <= self.tokens@.len(),
                Err(e) => case_statement_operand(self.source(), i as int) == Err::<(Option<tree::Expr>, int), Failure>(e@),
            },
        decreases self.tokens@.len() - i, 21int,
    {
        if !!self.is_kw(i, 0, "WHEN") {
            return Ok((None, i));
        }
        self.case_operand(i)
    }

    #[verifier::spinoff_prover]
    #[verifier::rlimit(100)]
    pub(crate) fn else_clause_of_cases(&self, i: usize) -> (r: Result<(Option<Vec<Stmt>>, usize), OraError>)
        requires
            self.inv(),
            i <= self.tokens@.len(),
        ensures
            match r {
                Ok((v, j)) => else_clause_of_cases(self.source(), i as int) == Ok::<(Option<Seq<tree::Stmt>>, int), Failure>((plsql::opt_stmts_tree(v), j as int)) && i <= j <= self.tokens@.len(),
                Err(e) => else_clause_of_cases(self.source(), i as int) == Err::<(Option<Seq<tree::Stmt>>, int), Failure>(e@),
            },
        decreases self.tokens@.len() - i, 0int,
    {
        if !self.is_kw(i, 0, "ELSE") {
            return Ok((None, i));
        }
        let (v, i) = self.statements(i + 1, plsql::no_stmts())?;
        Ok((Some(v), i))
    }

    #[verifier::spinoff_prover]
    #[verifier::rlimit(100)]
    pub(crate) fn jump_label(&self, i: usize) -> (r: Result<(Option<String>, usize), OraError>)
        requires
            self.inv(),
            i <= self.tokens@.len(),
        ensures
            match r {
                Ok((v, j)) => jump_label(self.source(), i as int) == Ok::<(Option<Seq<char>>, int), Failure>((ast::opt_text_tree(v), j as int)) && i <= j <= self.tokens@.len(),
                Err(e) => jump_label(self.source(), i as int) == Err::<(Option<Seq<char>>, int), Failure>(e@),
            },
        decreases self.tokens@.len() - i, 0int,
    {
        if !(self.is_ident(i, 0) && !self.is_kw(i, 0, "WHEN")) {
            return Ok((None, i));
        }
        let (v, i) = self.ident(i)?;
        Ok((Some(v), i))
    }

    #[verifier::spinoff_prover]
    #[verifier::rlimit(100)]
    pub(crate) fn when_clause(&self, i: usize) -> (r: Result<(Option<Expr>, usize), OraError>)
        requires
            self.inv(),
            i <= self.tokens@.len(),
        ensures
            match r {
                Ok((v, j)) => when_clause(self.source(), i as int) == Ok::<(Option<tree::Expr>, int), Failure>((ast::opt_expr_tree(v), j as int)) && i <= j <= self.tokens@.len(),
                Err(e) => when_clause(self.source(), i as int) == Err::<(Option<tree::Expr>, int), Failure>(e@),
            },
        decreases self.tokens@.len() - i, 0int,
    {
        if !self.is_kw(i, 0, "WHEN") {
            return Ok((None, i));
        }
        let (v, i) = self.expr(i + 1)?;
        Ok((Some(v), i))
    }

    #[verifier::spinoff_prover]
    #[verifier::rlimit(100)]
    pub(crate) fn execute_immediate_into(&self, i: usize) -> (r: Result<(Vec<Target>, usize), OraError>)
        requires
            self.inv(),
            i <= self.tokens@.len(),
        ensures
            match r {
                Ok((v, j)) => execute_immediate_into(self.source(), i as int) == Ok::<(Seq<tree::Target>, int), Failure>((plsql::targets_tree(v), j as int)) && i <= j <= self.tokens@.len(),
                Err(e) => execute_immediate_into(self.source(), i as int) == Err::<(Seq<tree::Target>, int), Failure>(e@),
            },
        decreases self.tokens@.len() - i, 0int,
    {
        if !self.is_kw(i, 0, "INTO") {
            return Ok((plsql::no_targets(), i));
        }
        self.targets(i + 1)
    }

    #[verifier::spinoff_prover]
    #[verifier::rlimit(100)]
    pub(crate) fn execute_immediate_using(&self, i: usize) -> (r: Result<(Vec<Expr>, usize), OraError>)
        requires
            self.inv(),
            i <= self.tokens@.len(),
        ensures
            match r {
                Ok((v, j)) => execute_immediate_using(self.source(), i as int) == Ok::<(Seq<tree::Expr>, int), Failure>((ast::exprs_tree(v), j as int)) && i <= j <= self.tokens@.len(),
                Err(e) => execute_immediate_using(self.source(), i as int) == Err::<(Seq<tree::Expr>, int), Failure>(e@),
            },
        decreases self.tokens@.len() - i, 0int,
    {
        if !self.is_kw(i, 0, "USING") {
            return Ok((ast::no_exprs(), i));
        }
        self.using(i + 1, ast::no_exprs())
    }
}

} // verus!
