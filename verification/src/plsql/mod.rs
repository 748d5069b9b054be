//! PL/SQL: anonymous blocks, stored procedures and functions.

pub mod assign;
pub mod calling;
pub mod calls;
pub mod cursor_args;
pub mod cursors;
pub mod dynamic;
pub mod exec;
pub mod fetching;
pub mod flow;
pub mod function;
pub mod interp;
pub mod run;
pub mod state;
pub mod vars;

use std::sync::Arc;

use vstd::prelude::*;

use crate::ast;
use crate::ast::{Expr, Query, Statement};
use crate::tree;
use crate::value::SqlType;

verus! {

pub struct Block {
    pub decls: Vec<Decl>,
    pub body: Vec<Stmt>,
    pub handlers: Vec<Handler>,
}

pub enum Decl {
    Var(VarDecl),
    /// A user-defined exception.
    Exception(String),
    /// `PRAGMA EXCEPTION_INIT(name, -code)`.
    ExceptionInit { name: String, code: u32 },
    Cursor(CursorDecl),
    /// A procedure or function local to the block.
    Routine(Arc<Routine>),
}

pub struct VarDecl {
    pub name: String,
    pub ty: TypeRef,
    pub constant: bool,
    pub not_null: bool,
    pub default: Option<Expr>,
}

/// A declared type, resolved when the declaration runs.
pub enum TypeRef {
    Sql(SqlType),
    Boolean,
    /// PLS_INTEGER, BINARY_INTEGER and friends: whole numbers.
    Integer,
    /// `table.column%TYPE`, or `variable%TYPE` when `table` is `None`.
    TypeOf { table: Option<String>, name: String },
    /// `table%ROWTYPE` or `cursor%ROWTYPE`.
    RowType(String),
}

pub struct CursorDecl {
    pub name: String,
    pub params: Vec<Param>,
    pub query: Query,
}

pub struct Handler {
    /// Exception names, or `OTHERS`.
    pub exceptions: Vec<String>,
    pub body: Vec<Stmt>,
}

/// Something a value can be assigned to.
pub enum Target {
    Var(String),
    /// `record.field`
    Field(String, String),
    /// A bind variable of the block, by position.
    Bind(usize),
}

pub struct Arg {
    /// Set for named notation, `name => value`.
    pub name: Option<String>,
    pub value: Expr,
}

pub enum CursorSource {
    Query(Query),
    Named { name: String, args: Vec<Expr> },
}

pub enum Stmt {
    Null,
    Assign { target: Target, value: Expr },
    If { branches: Vec<(Expr, Vec<Stmt>)>, else_: Option<Vec<Stmt>> },
    /// The CASE statement. Without ELSE, no match raises CASE_NOT_FOUND.
    Case { operand: Option<Expr>, whens: Vec<(Expr, Vec<Stmt>)>, else_: Option<Vec<Stmt>> },
    Loop { label: Option<String>, body: Vec<Stmt> },
    While { label: Option<String>, cond: Expr, body: Vec<Stmt> },
    ForRange {
        label: Option<String>,
        var: String,
        reverse: bool,
        low: Expr,
        high: Expr,
        body: Vec<Stmt>,
    },
    ForCursor { label: Option<String>, var: String, source: CursorSource, body: Vec<Stmt> },
    Exit { label: Option<String>, when: Option<Expr> },
    Continue { label: Option<String>, when: Option<Expr> },
    Return(Option<Expr>),
    /// `RAISE name`, or `RAISE` alone to re-raise inside a handler.
    Raise(Option<String>),
    /// A SQL statement. `into` holds the targets of `SELECT ... INTO`.
    Sql { stmt: Statement, into: Vec<Target> },
    /// A procedure call, including built-ins such as DBMS_OUTPUT.PUT_LINE.
    Call { name: String, args: Vec<Arg> },
    ExecuteImmediate { sql: Expr, into: Vec<Target>, using: Vec<Expr> },
    Open { cursor: String, args: Vec<Expr> },
    Fetch { cursor: String, into: Vec<Target> },
    Close { cursor: String },
    Block(Block),
}

#[derive(Debug, Clone, Copy, PartialEq, Eq, Structural)]
pub enum ParamMode {
    In,
    Out,
    InOut,
}

pub struct Param {
    pub name: String,
    pub mode: ParamMode,
    pub ty: TypeRef,
    pub default: Option<Expr>,
}

/// A stored or local procedure or function.
pub struct Routine {
    pub name: String,
    pub params: Vec<Param>,
    /// The return type of a function; `None` for a procedure.
    pub returns: Option<TypeRef>,
    pub block: Block,
}

pub open spec fn block_tree(e: Block) -> tree::Block
    decreases e,
{
    tree::Block {
        decls: decls_tree(e.decls),
        body: stmts_tree(e.body),
        handlers: handlers_tree(e.handlers),
    }
}

impl View for Block {
    type V = tree::Block;

    open spec fn view(&self) -> tree::Block {
        block_tree(*self)
    }
}

pub fn copy_block(e: &Block) -> (r: Block)
    ensures
        r@ == e@,
    decreases e,
{
    Block {
        decls: copy_decls(&e.decls),
        body: copy_stmts(&e.body),
        handlers: copy_handlers(&e.handlers),
    }
}

pub open spec fn decl_tree(e: Decl) -> tree::Decl
    decreases e,
{
    match e {
        Decl::Var(a) => tree::Decl::Var(var_decl_tree(a)),
        Decl::Exception(a) => tree::Decl::Exception(a@),
        Decl::ExceptionInit { name, code } => tree::Decl::ExceptionInit { name: name@, code },
        Decl::Cursor(a) => tree::Decl::Cursor(cursor_decl_tree(a)),
        Decl::Routine(a) => tree::Decl::Routine(Box::new(routine_tree(*a))),
    }
}

impl View for Decl {
    type V = tree::Decl;

    open spec fn view(&self) -> tree::Decl {
        decl_tree(*self)
    }
}

pub fn copy_decl(e: &Decl) -> (r: Decl)
    ensures
        r@ == e@,
    decreases e,
{
    match e {
        Decl::Var(a) => Decl::Var(copy_var_decl(a)),
        Decl::Exception(a) => Decl::Exception(a.clone()),
        Decl::ExceptionInit { name, code } => Decl::ExceptionInit {
            name: name.clone(),
            code: *code,
        },
        Decl::Cursor(a) => Decl::Cursor(copy_cursor_decl(a)),
        Decl::Routine(a) => Decl::Routine(a.clone()),
    }
}

pub open spec fn var_decl_tree(e: VarDecl) -> tree::VarDecl
    decreases e,
{
    tree::VarDecl {
        name: e.name@,
        ty: type_ref_tree(e.ty),
        constant: e.constant,
        not_null: e.not_null,
        default: ast::opt_expr_tree(e.default),
    }
}

impl View for VarDecl {
    type V = tree::VarDecl;

    open spec fn view(&self) -> tree::VarDecl {
        var_decl_tree(*self)
    }
}

pub fn copy_var_decl(e: &VarDecl) -> (r: VarDecl)
    ensures
        r@ == e@,
    decreases e,
{
    VarDecl {
        name: e.name.clone(),
        ty: copy_type_ref(&e.ty),
        constant: e.constant,
        not_null: e.not_null,
        default: ast::copy_opt_expr(&e.default),
    }
}

pub open spec fn type_ref_tree(e: TypeRef) -> tree::TypeRef
    decreases e,
{
    match e {
        TypeRef::Sql(a) => tree::TypeRef::Sql(a),
        TypeRef::Boolean => tree::TypeRef::Boolean,
        TypeRef::Integer => tree::TypeRef::Integer,
        TypeRef::TypeOf { table, name } => tree::TypeRef::TypeOf {
            table: ast::opt_text_tree(table),
            name: name@,
        },
        TypeRef::RowType(a) => tree::TypeRef::RowType(a@),
    }
}

impl View for TypeRef {
    type V = tree::TypeRef;

    open spec fn view(&self) -> tree::TypeRef {
        type_ref_tree(*self)
    }
}

pub fn copy_type_ref(e: &TypeRef) -> (r: TypeRef)
    ensures
        r@ == e@,
    decreases e,
{
    match e {
        TypeRef::Sql(a) => TypeRef::Sql(*a),
        TypeRef::Boolean => TypeRef::Boolean,
        TypeRef::Integer => TypeRef::Integer,
        TypeRef::TypeOf { table, name } => TypeRef::TypeOf {
            table: ast::copy_opt_text(table),
            name: name.clone(),
        },
        TypeRef::RowType(a) => TypeRef::RowType(a.clone()),
    }
}

pub open spec fn cursor_decl_tree(e: CursorDecl) -> tree::CursorDecl
    decreases e,
{
    tree::CursorDecl {
        name: e.name@,
        params: params_tree(e.params),
        query: ast::query_tree(e.query),
    }
}

impl View for CursorDecl {
    type V = tree::CursorDecl;

    open spec fn view(&self) -> tree::CursorDecl {
        cursor_decl_tree(*self)
    }
}

pub fn copy_cursor_decl(e: &CursorDecl) -> (r: CursorDecl)
    ensures
        r@ == e@,
    decreases e,
{
    CursorDecl {
        name: e.name.clone(),
        params: copy_params(&e.params),
        query: ast::copy_query(&e.query),
    }
}

pub open spec fn handler_tree(e: Handler) -> tree::Handler
    decreases e,
{
    tree::Handler {
        exceptions: ast::texts_tree(e.exceptions),
        body: stmts_tree(e.body),
    }
}

impl View for Handler {
    type V = tree::Handler;

    open spec fn view(&self) -> tree::Handler {
        handler_tree(*self)
    }
}

pub fn copy_handler(e: &Handler) -> (r: Handler)
    ensures
        r@ == e@,
    decreases e,
{
    Handler {
        exceptions: ast::copy_texts(&e.exceptions),
        body: copy_stmts(&e.body),
    }
}

pub open spec fn target_tree(e: Target) -> tree::Target
    decreases e,
{
    match e {
        Target::Var(a) => tree::Target::Var(a@),
        Target::Field(a, b) => tree::Target::Field(a@, b@),
        Target::Bind(a) => tree::Target::Bind(a as int),
    }
}

impl View for Target {
    type V = tree::Target;

    open spec fn view(&self) -> tree::Target {
        target_tree(*self)
    }
}

pub fn copy_target(e: &Target) -> (r: Target)
    ensures
        r@ == e@,
    decreases e,
{
    match e {
        Target::Var(a) => Target::Var(a.clone()),
        Target::Field(a, b) => Target::Field(a.clone(), b.clone()),
        Target::Bind(a) => Target::Bind(*a),
    }
}

pub open spec fn arg_tree(e: Arg) -> tree::Arg
    decreases e,
{
    tree::Arg {
        name: ast::opt_text_tree(e.name),
        value: ast::expr_tree(e.value),
    }
}

impl View for Arg {
    type V = tree::Arg;

    open spec fn view(&self) -> tree::Arg {
        arg_tree(*self)
    }
}

pub fn copy_arg(e: &Arg) -> (r: Arg)
    ensures
        r@ == e@,
    decreases e,
{
    Arg {
        name: ast::copy_opt_text(&e.name),
        value: ast::copy_expr(&e.value),
    }
}

pub open spec fn cursor_source_tree(e: CursorSource) -> tree::CursorSource
    decreases e,
{
    match e {
        CursorSource::Query(a) => tree::CursorSource::Query(ast::query_tree(a)),
        CursorSource::Named { name, args } => tree::CursorSource::Named {
            name: name@,
            args: ast::exprs_tree(args),
        },
    }
}

impl View for CursorSource {
    type V = tree::CursorSource;

    open spec fn view(&self) -> tree::CursorSource {
        cursor_source_tree(*self)
    }
}

pub fn copy_cursor_source(e: &CursorSource) -> (r: CursorSource)
    ensures
        r@ == e@,
    decreases e,
{
    match e {
        CursorSource::Query(a) => CursorSource::Query(ast::copy_query(a)),
        CursorSource::Named { name, args } => CursorSource::Named {
            name: name.clone(),
            args: ast::copy_exprs(args),
        },
    }
}

pub open spec fn stmt_tree(e: Stmt) -> tree::Stmt
    decreases e,
{
    match e {
        Stmt::Null => tree::Stmt::Null,
        Stmt::Assign { target, value } => tree::Stmt::Assign {
            target: target_tree(target),
            value: ast::expr_tree(value),
        },
        Stmt::If { branches, else_ } => tree::Stmt::If {
            branches: expr_stmtss_tree(branches),
            else_: opt_stmts_tree(else_),
        },
        Stmt::Case { operand, whens, else_ } => tree::Stmt::Case {
            operand: ast::opt_expr_tree(operand),
            whens: expr_stmtss_tree(whens),
            else_: opt_stmts_tree(else_),
        },
        Stmt::Loop { label, body } => tree::Stmt::Loop {
            label: ast::opt_text_tree(label),
            body: stmts_tree(body),
        },
        Stmt::While { label, cond, body } => tree::Stmt::While {
            label: ast::opt_text_tree(label),
            cond: ast::expr_tree(cond),
            body: stmts_tree(body),
        },
        Stmt::ForRange { label, var, reverse, low, high, body } => tree::Stmt::ForRange {
            label: ast::opt_text_tree(label),
            var: var@,
            reverse,
            low: ast::expr_tree(low),
            high: ast::expr_tree(high),
            body: stmts_tree(body),
        },
        Stmt::ForCursor { label, var, source, body } => tree::Stmt::ForCursor {
            label: ast::opt_text_tree(label),
            var: var@,
            source: cursor_source_tree(source),
            body: stmts_tree(body),
        },
        Stmt::Exit { label, when } => tree::Stmt::Exit {
            label: ast::opt_text_tree(label),
            when: ast::opt_expr_tree(when),
        },
        Stmt::Continue { label, when } => tree::Stmt::Continue {
            label: ast::opt_text_tree(label),
            when: ast::opt_expr_tree(when),
        },
        Stmt::Return(a) => tree::Stmt::Return(ast::opt_expr_tree(a)),
        Stmt::Raise(a) => tree::Stmt::Raise(ast::opt_text_tree(a)),
        Stmt::Sql { stmt, into } => tree::Stmt::Sql {
            stmt: ast::statement_tree(stmt),
            into: targets_tree(into),
        },
        Stmt::Call { name, args } => tree::Stmt::Call { name: name@, args: args_tree(args) },
        Stmt::ExecuteImmediate { sql, into, using } => tree::Stmt::ExecuteImmediate {
            sql: ast::expr_tree(sql),
            into: targets_tree(into),
            using: ast::exprs_tree(using),
        },
        Stmt::Open { cursor, args } => tree::Stmt::Open {
            cursor: cursor@,
            args: ast::exprs_tree(args),
        },
        Stmt::Fetch { cursor, into } => tree::Stmt::Fetch {
            cursor: cursor@,
            into: targets_tree(into),
        },
        Stmt::Close { cursor } => tree::Stmt::Close { cursor: cursor@ },
        Stmt::Block(a) => tree::Stmt::Block(block_tree(a)),
    }
}

impl View for Stmt {
    type V = tree::Stmt;

    open spec fn view(&self) -> tree::Stmt {
        stmt_tree(*self)
    }
}

pub fn copy_stmt(e: &Stmt) -> (r: Stmt)
    ensures
        r@ == e@,
    decreases e,
{
    match e {
        Stmt::Null => Stmt::Null,
        Stmt::Assign { target, value } => Stmt::Assign {
            target: copy_target(target),
            value: ast::copy_expr(value),
        },
        Stmt::If { branches, else_ } => Stmt::If {
            branches: copy_expr_stmtss(branches),
            else_: copy_opt_stmts(else_),
        },
        Stmt::Case { operand, whens, else_ } => Stmt::Case {
            operand: ast::copy_opt_expr(operand),
            whens: copy_expr_stmtss(whens),
            else_: copy_opt_stmts(else_),
        },
        Stmt::Loop { label, body } => Stmt::Loop {
            label: ast::copy_opt_text(label),
            body: copy_stmts(body),
        },
        Stmt::While { label, cond, body } => Stmt::While {
            label: ast::copy_opt_text(label),
            cond: ast::copy_expr(cond),
            body: copy_stmts(body),
        },
        Stmt::ForRange { label, var, reverse, low, high, body } => Stmt::ForRange {
            label: ast::copy_opt_text(label),
            var: var.clone(),
            reverse: *reverse,
            low: ast::copy_expr(low),
            high: ast::copy_expr(high),
            body: copy_stmts(body),
        },
        Stmt::ForCursor { label, var, source, body } => Stmt::ForCursor {
            label: ast::copy_opt_text(label),
            var: var.clone(),
            source: copy_cursor_source(source),
            body: copy_stmts(body),
        },
        Stmt::Exit { label, when } => Stmt::Exit {
            label: ast::copy_opt_text(label),
            when: ast::copy_opt_expr(when),
        },
        Stmt::Continue { label, when } => Stmt::Continue {
            label: ast::copy_opt_text(label),
            when: ast::copy_opt_expr(when),
        },
        Stmt::Return(a) => Stmt::Return(ast::copy_opt_expr(a)),
        Stmt::Raise(a) => Stmt::Raise(ast::copy_opt_text(a)),
        Stmt::Sql { stmt, into } => Stmt::Sql {
            stmt: ast::copy_statement(stmt),
            into: copy_targets(into),
        },
        Stmt::Call { name, args } => Stmt::Call { name: name.clone(), args: copy_args(args) },
        Stmt::ExecuteImmediate { sql, into, using } => Stmt::ExecuteImmediate {
            sql: ast::copy_expr(sql),
            into: copy_targets(into),
            using: ast::copy_exprs(using),
        },
        Stmt::Open { cursor, args } => Stmt::Open {
            cursor: cursor.clone(),
            args: ast::copy_exprs(args),
        },
        Stmt::Fetch { cursor, into } => Stmt::Fetch {
            cursor: cursor.clone(),
            into: copy_targets(into),
        },
        Stmt::Close { cursor } => Stmt::Close { cursor: cursor.clone() },
        Stmt::Block(a) => Stmt::Block(copy_block(a)),
    }
}

pub open spec fn param_tree(e: Param) -> tree::Param
    decreases e,
{
    tree::Param {
        name: e.name@,
        mode: e.mode,
        ty: type_ref_tree(e.ty),
        default: ast::opt_expr_tree(e.default),
    }
}

impl View for Param {
    type V = tree::Param;

    open spec fn view(&self) -> tree::Param {
        param_tree(*self)
    }
}

pub fn copy_param(e: &Param) -> (r: Param)
    ensures
        r@ == e@,
    decreases e,
{
    Param {
        name: e.name.clone(),
        mode: e.mode,
        ty: copy_type_ref(&e.ty),
        default: ast::copy_opt_expr(&e.default),
    }
}

pub open spec fn routine_tree(e: Routine) -> tree::Routine
    decreases e,
{
    tree::Routine {
        name: e.name@,
        params: params_tree(e.params),
        returns: opt_type_ref_tree(e.returns),
        block: block_tree(e.block),
    }
}

impl View for Routine {
    type V = tree::Routine;

    open spec fn view(&self) -> tree::Routine {
        routine_tree(*self)
    }
}

pub fn copy_routine(e: &Routine) -> (r: Routine)
    ensures
        r@ == e@,
    decreases e,
{
    Routine {
        name: e.name.clone(),
        params: copy_params(&e.params),
        returns: copy_opt_type_ref(&e.returns),
        block: copy_block(&e.block),
    }
}

pub open spec fn decls_tree(e: Vec<Decl>) -> Seq<tree::Decl>
    decreases e,
{
    Seq::new(
        e@.len(),
        |i: int|
            if 0 <= i < e@.len() {
                decl_tree(e@[i])
            } else {
                arbitrary()
            },
    )
}

pub fn no_decls() -> (r: Vec<Decl>)
    ensures
        decls_tree(r) == Seq::<tree::Decl>::empty(),
{
    let r: Vec<Decl> = Vec::new();
    assert(decls_tree(r) =~= Seq::<tree::Decl>::empty());
    r
}

pub fn copy_decls(e: &Vec<Decl>) -> (r: Vec<Decl>)
    ensures
        decls_tree(r) == decls_tree(*e),
    decreases e,
{
    let mut out: Vec<Decl> = Vec::new();
    for i in 0..e.len()
        invariant
            decls_tree(out) == decls_tree(*e).take(i as int),
    {
        let x = copy_decl(&e[i]);
        let ghost before = out;
        out.push(x);
        assert(decls_tree(out) =~= decls_tree(before).push(decl_tree(x)));
        assert(decls_tree(out) =~= decls_tree(*e).take(i + 1));
    }
    assert(decls_tree(out) =~= decls_tree(*e));
    out
}

pub open spec fn stmts_tree(e: Vec<Stmt>) -> Seq<tree::Stmt>
    decreases e,
{
    Seq::new(
        e@.len(),
        |i: int|
            if 0 <= i < e@.len() {
                stmt_tree(e@[i])
            } else {
                arbitrary()
            },
    )
}

pub fn no_stmts() -> (r: Vec<Stmt>)
    ensures
        stmts_tree(r) == Seq::<tree::Stmt>::empty(),
{
    let r: Vec<Stmt> = Vec::new();
    assert(stmts_tree(r) =~= Seq::<tree::Stmt>::empty());
    r
}

pub fn copy_stmts(e: &Vec<Stmt>) -> (r: Vec<Stmt>)
    ensures
        stmts_tree(r) == stmts_tree(*e),
    decreases e,
{
    let mut out: Vec<Stmt> = Vec::new();
    for i in 0..e.len()
        invariant
            stmts_tree(out) == stmts_tree(*e).take(i as int),
    {
        let x = copy_stmt(&e[i]);
        let ghost before = out;
        out.push(x);
        assert(stmts_tree(out) =~= stmts_tree(before).push(stmt_tree(x)));
        assert(stmts_tree(out) =~= stmts_tree(*e).take(i + 1));
    }
    assert(stmts_tree(out) =~= stmts_tree(*e));
    out
}

pub open spec fn handlers_tree(e: Vec<Handler>) -> Seq<tree::Handler>
    decreases e,
{
    Seq::new(
        e@.len(),
        |i: int|
            if 0 <= i < e@.len() {
                handler_tree(e@[i])
            } else {
                arbitrary()
            },
    )
}

pub fn no_handlers() -> (r: Vec<Handler>)
    ensures
        handlers_tree(r) == Seq::<tree::Handler>::empty(),
{
    let r: Vec<Handler> = Vec::new();
    assert(handlers_tree(r) =~= Seq::<tree::Handler>::empty());
    r
}

pub fn copy_handlers(e: &Vec<Handler>) -> (r: Vec<Handler>)
    ensures
        handlers_tree(r) == handlers_tree(*e),
    decreases e,
{
    let mut out: Vec<Handler> = Vec::new();
    for i in 0..e.len()
        invariant
            handlers_tree(out) == handlers_tree(*e).take(i as int),
    {
        let x = copy_handler(&e[i]);
        let ghost before = out;
        out.push(x);
        assert(handlers_tree(out) =~= handlers_tree(before).push(handler_tree(x)));
        assert(handlers_tree(out) =~= handlers_tree(*e).take(i + 1));
    }
    assert(handlers_tree(out) =~= handlers_tree(*e));
    out
}

pub open spec fn params_tree(e: Vec<Param>) -> Seq<tree::Param>
    decreases e,
{
    Seq::new(
        e@.len(),
        |i: int|
            if 0 <= i < e@.len() {
                param_tree(e@[i])
            } else {
                arbitrary()
            },
    )
}

pub fn no_params() -> (r: Vec<Param>)
    ensures
        params_tree(r) == Seq::<tree::Param>::empty(),
{
    let r: Vec<Param> = Vec::new();
    assert(params_tree(r) =~= Seq::<tree::Param>::empty());
    r
}

pub fn copy_params(e: &Vec<Param>) -> (r: Vec<Param>)
    ensures
        params_tree(r) == params_tree(*e),
    decreases e,
{
    let mut out: Vec<Param> = Vec::new();
    for i in 0..e.len()
        invariant
            params_tree(out) == params_tree(*e).take(i as int),
    {
        let x = copy_param(&e[i]);
        let ghost before = out;
        out.push(x);
        assert(params_tree(out) =~= params_tree(before).push(param_tree(x)));
        assert(params_tree(out) =~= params_tree(*e).take(i + 1));
    }
    assert(params_tree(out) =~= params_tree(*e));
    out
}

pub open spec fn expr_stmtss_tree(e: Vec<(Expr, Vec<Stmt>)>) -> Seq<(tree::Expr, Seq<tree::Stmt>)>
    decreases e,
{
    Seq::new(
        e@.len(),
        |i: int|
            if 0 <= i < e@.len() {
                (ast::expr_tree(e@[i].0), stmts_tree(e@[i].1))
            } else {
                arbitrary()
            },
    )
}

pub fn no_expr_stmtss() -> (r: Vec<(Expr, Vec<Stmt>)>)
    ensures
        expr_stmtss_tree(r) == Seq::<(tree::Expr, Seq<tree::Stmt>)>::empty(),
{
    let r: Vec<(Expr, Vec<Stmt>)> = Vec::new();
    assert(expr_stmtss_tree(r) =~= Seq::<(tree::Expr, Seq<tree::Stmt>)>::empty());
    r
}

pub fn copy_expr_stmtss(e: &Vec<(Expr, Vec<Stmt>)>) -> (r: Vec<(Expr, Vec<Stmt>)>)
    ensures
        expr_stmtss_tree(r) == expr_stmtss_tree(*e),
    decreases e,
{
    let mut out: Vec<(Expr, Vec<Stmt>)> = Vec::new();
    for i in 0..e.len()
        invariant
            expr_stmtss_tree(out) == expr_stmtss_tree(*e).take(i as int),
    {
        let x = (ast::copy_expr(&e[i].0), copy_stmts(&e[i].1));
        let ghost before = out;
        out.push(x);
        assert(expr_stmtss_tree(out) =~= expr_stmtss_tree(before).push((ast::expr_tree(x.0), stmts_tree(x.1))));
        assert(expr_stmtss_tree(out) =~= expr_stmtss_tree(*e).take(i + 1));
    }
    assert(expr_stmtss_tree(out) =~= expr_stmtss_tree(*e));
    out
}

pub open spec fn opt_stmts_tree(e: Option<Vec<Stmt>>) -> Option<Seq<tree::Stmt>>
    decreases e,
{
    match e {
        Some(x) => Some(stmts_tree(x)),
        None => None,
    }
}

pub fn copy_opt_stmts(e: &Option<Vec<Stmt>>) -> (r: Option<Vec<Stmt>>)
    ensures
        opt_stmts_tree(r) == opt_stmts_tree(*e),
    decreases e,
{
    match e {
        Some(x) => Some(copy_stmts(x)),
        None => None,
    }
}

pub open spec fn targets_tree(e: Vec<Target>) -> Seq<tree::Target>
    decreases e,
{
    Seq::new(
        e@.len(),
        |i: int|
            if 0 <= i < e@.len() {
                target_tree(e@[i])
            } else {
                arbitrary()
            },
    )
}

pub fn no_targets() -> (r: Vec<Target>)
    ensures
        targets_tree(r) == Seq::<tree::Target>::empty(),
{
    let r: Vec<Target> = Vec::new();
    assert(targets_tree(r) =~= Seq::<tree::Target>::empty());
    r
}

pub fn copy_targets(e: &Vec<Target>) -> (r: Vec<Target>)
    ensures
        targets_tree(r) == targets_tree(*e),
    decreases e,
{
    let mut out: Vec<Target> = Vec::new();
    for i in 0..e.len()
        invariant
            targets_tree(out) == targets_tree(*e).take(i as int),
    {
        let x = copy_target(&e[i]);
        let ghost before = out;
        out.push(x);
        assert(targets_tree(out) =~= targets_tree(before).push(target_tree(x)));
        assert(targets_tree(out) =~= targets_tree(*e).take(i + 1));
    }
    assert(targets_tree(out) =~= targets_tree(*e));
    out
}

pub open spec fn args_tree(e: Vec<Arg>) -> Seq<tree::Arg>
    decreases e,
{
    Seq::new(
        e@.len(),
        |i: int|
            if 0 <= i < e@.len() {
                arg_tree(e@[i])
            } else {
                arbitrary()
            },
    )
}

pub fn no_args() -> (r: Vec<Arg>)
    ensures
        args_tree(r) == Seq::<tree::Arg>::empty(),
{
    let r: Vec<Arg> = Vec::new();
    assert(args_tree(r) =~= Seq::<tree::Arg>::empty());
    r
}

pub fn copy_args(e: &Vec<Arg>) -> (r: Vec<Arg>)
    ensures
        args_tree(r) == args_tree(*e),
    decreases e,
{
    let mut out: Vec<Arg> = Vec::new();
    for i in 0..e.len()
        invariant
            args_tree(out) == args_tree(*e).take(i as int),
    {
        let x = copy_arg(&e[i]);
        let ghost before = out;
        out.push(x);
        assert(args_tree(out) =~= args_tree(before).push(arg_tree(x)));
        assert(args_tree(out) =~= args_tree(*e).take(i + 1));
    }
    assert(args_tree(out) =~= args_tree(*e));
    out
}

pub open spec fn opt_type_ref_tree(e: Option<TypeRef>) -> Option<tree::TypeRef>
    decreases e,
{
    match e {
        Some(x) => Some(type_ref_tree(x)),
        None => None,
    }
}

pub fn copy_opt_type_ref(e: &Option<TypeRef>) -> (r: Option<TypeRef>)
    ensures
        opt_type_ref_tree(r) == opt_type_ref_tree(*e),
    decreases e,
{
    match e {
        Some(x) => Some(copy_type_ref(x)),
        None => None,
    }
}

pub open spec fn opt_decl_tree(e: Option<Decl>) -> Option<tree::Decl>
    decreases e,
{
    match e {
        Some(x) => Some(decl_tree(x)),
        None => None,
    }
}

pub fn copy_opt_decl(e: &Option<Decl>) -> (r: Option<Decl>)
    ensures
        opt_decl_tree(r) == opt_decl_tree(*e),
    decreases e,
{
    match e {
        Some(x) => Some(copy_decl(x)),
        None => None,
    }
}

impl Routine {
    pub fn is_function(&self) -> (r: bool)
        ensures
            r == self.returns is Some,
    {
        self.returns.is_some()
    }
}

} // verus!
