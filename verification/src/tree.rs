//! Parsed statements, as contracts speak of them.

use vstd::prelude::*;

use crate::ast::{BinaryOp, JoinKind, SequenceOption, SetOp};
use crate::plsql::ParamMode;
use crate::value::{Datum, SqlType};

verus! {

/// An expression.
pub enum Expr {
    Literal(Datum),
    Bind(int),
    Column { table: Option<Seq<char>>, name: Seq<char> },
    Neg(Box<Expr>),
    Not(Box<Expr>),
    Binary(BinaryOp, Box<Expr>, Box<Expr>),
    IsNull { expr: Box<Expr>, negated: bool },
    Between { expr: Box<Expr>, low: Box<Expr>, high: Box<Expr>, negated: bool },
    InList { expr: Box<Expr>, list: Seq<Expr>, negated: bool },
    InSubquery { expr: Box<Expr>, query: Box<Query>, negated: bool },
    Exists(Box<Query>),
    Like { expr: Box<Expr>, pattern: Box<Expr>, escape: Option<Box<Expr>>, negated: bool },
    Case { operand: Option<Box<Expr>>, whens: Seq<(Expr, Expr)>, else_: Option<Box<Expr>> },
    Function { name: Seq<char>, args: Seq<Expr>, distinct: bool },
    CountStar,
    Subquery(Box<Query>),
    RowNum,
}

/// A query with its order and the rows of it that are wanted.
pub struct Query {
    pub body: SetExpr,
    pub order_by: Seq<OrderItem>,
    pub offset: Option<Expr>,
    pub fetch: Option<Expr>,
}

pub enum SetExpr {
    Select(Box<Select>),
    SetOp { op: SetOp, left: Box<SetExpr>, right: Box<SetExpr> },
}

pub struct Select {
    pub distinct: bool,
    pub items: Seq<SelectItem>,
    pub from: Seq<FromItem>,
    pub where_: Option<Expr>,
    pub group_by: Seq<Expr>,
    pub having: Option<Expr>,
}

pub enum SelectItem {
    Expr { expr: Expr, name: Seq<char> },
    Star,
    QualifiedStar(Seq<char>),
}

/// A table in FROM, with the tables joined to it.
pub struct FromItem {
    pub factor: TableFactor,
    pub joins: Seq<Join>,
}

pub enum TableFactor {
    Table { name: Seq<char>, alias: Option<Seq<char>> },
    Subquery { query: Box<Query>, alias: Option<Seq<char>> },
}

pub struct Join {
    pub kind: JoinKind,
    pub factor: TableFactor,
    pub on: Option<Expr>,
}

pub struct OrderItem {
    pub expr: Expr,
    pub desc: bool,
    pub nulls_first: Option<bool>,
}

/// The values that a DML statement hands back, and where they go.
pub struct Returning {
    pub exprs: Seq<Expr>,
    pub into: Seq<Expr>,
}

pub struct Insert {
    pub table: Seq<char>,
    pub columns: Option<Seq<Seq<char>>>,
    pub source: InsertSource,
    pub returning: Option<Returning>,
}

pub enum InsertSource {
    Values(Seq<Expr>),
    Query(Box<Query>),
}

pub struct Update {
    pub table: Seq<char>,
    pub alias: Option<Seq<char>>,
    pub assignments: Seq<(Seq<char>, Expr)>,
    pub where_: Option<Expr>,
    pub returning: Option<Returning>,
}

pub struct Delete {
    pub table: Seq<char>,
    pub alias: Option<Seq<char>>,
    pub where_: Option<Expr>,
    pub returning: Option<Returning>,
}

pub struct CreateTable {
    pub name: Seq<char>,
    pub columns: Seq<ColumnDef>,
    pub constraints: Seq<TableConstraint>,
    pub as_query: Option<Box<Query>>,
}

pub struct ColumnDef {
    pub name: Seq<char>,
    pub sql_type: SqlType,
    pub default: Option<Expr>,
    pub not_null: bool,
    pub identity: bool,
}

pub struct TableConstraint {
    pub name: Option<Seq<char>>,
    pub kind: ConstraintKind,
}

pub enum ConstraintKind {
    PrimaryKey(Seq<Seq<char>>),
    Unique(Seq<Seq<char>>),
    Check(Expr),
    ForeignKey { columns: Seq<Seq<char>>, table: Seq<char>, ref_columns: Seq<Seq<char>> },
}

/// A statement of SQL, or a block of PL/SQL.
pub enum Statement {
    Query(Query),
    Insert(Insert),
    Update(Update),
    Delete(Delete),
    CreateTable(CreateTable),
    DropTable { name: Seq<char> },
    CreateIndex { name: Seq<char>, table: Seq<char>, columns: Seq<Seq<char>>, unique: bool },
    DropIndex { name: Seq<char> },
    Truncate { name: Seq<char> },
    CreateSequence { name: Seq<char>, options: Seq<SequenceOption> },
    AlterSequence { name: Seq<char>, options: Seq<SequenceOption> },
    DropSequence { name: Seq<char> },
    CreateRoutine { routine: Box<Routine>, or_replace: bool },
    DropRoutine { name: Seq<char>, function: bool },
    Block(Block),
    Commit,
    Rollback,
    AlterSession { name: Seq<char>, value: Seq<char> },
}

pub struct Block {
    pub decls: Seq<Decl>,
    pub body: Seq<Stmt>,
    pub handlers: Seq<Handler>,
}

pub enum Decl {
    Var(VarDecl),
    Exception(Seq<char>),
    ExceptionInit { name: Seq<char>, code: u32 },
    Cursor(CursorDecl),
    Routine(Box<Routine>),
}

pub struct VarDecl {
    pub name: Seq<char>,
    pub ty: TypeRef,
    pub constant: bool,
    pub not_null: bool,
    pub default: Option<Expr>,
}

/// A declared type, resolved when the declaration runs.
pub enum TypeRef {
    Sql(SqlType),
    Boolean,
    Integer,
    TypeOf { table: Option<Seq<char>>, name: Seq<char> },
    RowType(Seq<char>),
}

pub struct CursorDecl {
    pub name: Seq<char>,
    pub params: Seq<Param>,
    pub query: Query,
}

pub struct Handler {
    pub exceptions: Seq<Seq<char>>,
    pub body: Seq<Stmt>,
}

/// Something a value can be assigned to.
pub enum Target {
    Var(Seq<char>),
    Field(Seq<char>, Seq<char>),
    Bind(int),
}

pub struct Arg {
    pub name: Option<Seq<char>>,
    pub value: Expr,
}

pub enum CursorSource {
    Query(Query),
    Named { name: Seq<char>, args: Seq<Expr> },
}

pub enum Stmt {
    Null,
    Assign { target: Target, value: Expr },
    If { branches: Seq<(Expr, Seq<Stmt>)>, else_: Option<Seq<Stmt>> },
    Case { operand: Option<Expr>, whens: Seq<(Expr, Seq<Stmt>)>, else_: Option<Seq<Stmt>> },
    Loop { label: Option<Seq<char>>, body: Seq<Stmt> },
    While { label: Option<Seq<char>>, cond: Expr, body: Seq<Stmt> },
    ForRange {
        label: Option<Seq<char>>,
        var: Seq<char>,
        reverse: bool,
        low: Expr,
        high: Expr,
        body: Seq<Stmt>,
    },
    ForCursor { label: Option<Seq<char>>, var: Seq<char>, source: CursorSource, body: Seq<Stmt> },
    Exit { label: Option<Seq<char>>, when: Option<Expr> },
    Continue { label: Option<Seq<char>>, when: Option<Expr> },
    Return(Option<Expr>),
    Raise(Option<Seq<char>>),
    Sql { stmt: Statement, into: Seq<Target> },
    Call { name: Seq<char>, args: Seq<Arg> },
    ExecuteImmediate { sql: Expr, into: Seq<Target>, using: Seq<Expr> },
    Open { cursor: Seq<char>, args: Seq<Expr> },
    Fetch { cursor: Seq<char>, into: Seq<Target> },
    Close { cursor: Seq<char> },
    Block(Block),
}

pub struct Param {
    pub name: Seq<char>,
    pub mode: ParamMode,
    pub ty: TypeRef,
    pub default: Option<Expr>,
}

/// A stored or local procedure or function.
pub struct Routine {
    pub name: Seq<char>,
    pub params: Seq<Param>,
    pub returns: Option<TypeRef>,
    pub block: Block,
}

} // verus!
