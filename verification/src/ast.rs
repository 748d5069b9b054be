//! Parsed statements.

use std::sync::Arc;

use vstd::prelude::*;

use crate::plsql;
use crate::plsql::{Block, Routine};
use crate::tree;
use crate::value::{SqlType, Value};

verus! {

/// What a set operation does with the rows of two queries.
#[derive(Debug, Clone, Copy, PartialEq, Eq, Structural)]
pub enum SetOp {
    Union,
    UnionAll,
    Intersect,
    Minus,
}

#[derive(Debug, Clone, Copy, PartialEq, Eq, Structural)]
pub enum JoinKind {
    Inner,
    Left,
    Right,
    Full,
    Cross,
}

#[derive(Debug, Clone, Copy, PartialEq, Eq, Structural)]
pub enum BinaryOp {
    Add,
    Sub,
    Mul,
    Div,
    Concat,
    Eq,
    NotEq,
    Lt,
    LtEq,
    Gt,
    GtEq,
    And,
    Or,
}

/// An expression.
pub enum Expr {
    Literal(Value),
    /// A bind variable, by its position among all bind occurrences in the statement.
    Bind(usize),
    Column { table: Option<String>, name: String },
    Neg(Box<Expr>),
    Not(Box<Expr>),
    Binary(BinaryOp, Box<Expr>, Box<Expr>),
    IsNull { expr: Box<Expr>, negated: bool },
    Between { expr: Box<Expr>, low: Box<Expr>, high: Box<Expr>, negated: bool },
    InList { expr: Box<Expr>, list: Vec<Expr>, negated: bool },
    InSubquery { expr: Box<Expr>, query: Box<Query>, negated: bool },
    Exists(Box<Query>),
    Like { expr: Box<Expr>, pattern: Box<Expr>, escape: Option<Box<Expr>>, negated: bool },
    Case { operand: Option<Box<Expr>>, whens: Vec<(Expr, Expr)>, else_: Option<Box<Expr>> },
    Function { name: String, args: Vec<Expr>, distinct: bool },
    /// `COUNT(*)`
    CountStar,
    Subquery(Box<Query>),
    RowNum,
}

/// A query with its order and the rows of it that are wanted.
pub struct Query {
    pub body: SetExpr,
    pub order_by: Vec<OrderItem>,
    pub offset: Option<Expr>,
    pub fetch: Option<Expr>,
}

pub enum SetExpr {
    Select(Box<Select>),
    SetOp { op: SetOp, left: Box<SetExpr>, right: Box<SetExpr> },
}

pub struct Select {
    pub distinct: bool,
    pub items: Vec<SelectItem>,
    pub from: Vec<FromItem>,
    pub where_: Option<Expr>,
    pub group_by: Vec<Expr>,
    pub having: Option<Expr>,
}

pub enum SelectItem {
    /// An expression under the column name Oracle reports: the alias, or the expression text
    /// uppercased with whitespace removed.
    Expr { expr: Expr, name: String },
    /// `*`
    Star,
    /// `t.*`
    QualifiedStar(String),
}

/// A table in FROM, with the tables joined to it.
pub struct FromItem {
    pub factor: TableFactor,
    pub joins: Vec<Join>,
}

pub enum TableFactor {
    Table { name: String, alias: Option<String> },
    Subquery { query: Box<Query>, alias: Option<String> },
}

pub struct Join {
    pub kind: JoinKind,
    pub factor: TableFactor,
    pub on: Option<Expr>,
}

pub struct OrderItem {
    pub expr: Expr,
    pub desc: bool,
    /// Explicit NULLS FIRST (true) or NULLS LAST (false). Oracle's default puts
    /// NULLs last when ascending and first when descending.
    pub nulls_first: Option<bool>,
}

/// The values that a DML statement hands back, and where they go.
pub struct Returning {
    pub exprs: Vec<Expr>,
    pub into: Vec<Expr>,
}

pub struct Insert {
    pub table: String,
    pub columns: Option<Vec<String>>,
    pub source: InsertSource,
    pub returning: Option<Returning>,
}

pub enum InsertSource {
    Values(Vec<Expr>),
    Query(Box<Query>),
}

pub struct Update {
    pub table: String,
    pub alias: Option<String>,
    pub assignments: Vec<(String, Expr)>,
    pub where_: Option<Expr>,
    pub returning: Option<Returning>,
}

pub struct Delete {
    pub table: String,
    pub alias: Option<String>,
    pub where_: Option<Expr>,
    pub returning: Option<Returning>,
}

pub struct CreateTable {
    pub name: String,
    pub columns: Vec<ColumnDef>,
    pub constraints: Vec<TableConstraint>,
    /// `CREATE TABLE ... AS SELECT`: columns and rows come from the query.
    pub as_query: Option<Box<Query>>,
}

pub struct ColumnDef {
    pub name: String,
    pub sql_type: SqlType,
    pub default: Option<Expr>,
    pub not_null: bool,
    /// An identity column (`GENERATED ... AS IDENTITY`) gets 1, 2, 3, ... when no value is given.
    pub identity: bool,
}

pub struct TableConstraint {
    pub name: Option<String>,
    pub kind: ConstraintKind,
}

pub enum ConstraintKind {
    PrimaryKey(Vec<String>),
    Unique(Vec<String>),
    Check(Expr),
    /// Parsed and kept, but not enforced yet.
    ForeignKey { columns: Vec<String>, table: String, ref_columns: Vec<String> },
}

#[derive(Debug, Clone, Copy, PartialEq, Eq)]
pub enum SequenceOption {
    StartWith(i128),
    IncrementBy(i128),
    MinValue(Option<i128>),
    MaxValue(Option<i128>),
    Cycle(bool),
    Restart(Option<i128>),
}

/// A statement of SQL, or a block of PL/SQL.
pub enum Statement {
    Query(Query),
    Insert(Insert),
    Update(Update),
    Delete(Delete),
    CreateTable(CreateTable),
    DropTable { name: String },
    /// Only unique indexes have an effect: they enforce uniqueness like a UNIQUE constraint.
    CreateIndex { name: String, table: String, columns: Vec<String>, unique: bool },
    DropIndex { name: String },
    Truncate { name: String },
    CreateSequence { name: String, options: Vec<SequenceOption> },
    AlterSequence { name: String, options: Vec<SequenceOption> },
    DropSequence { name: String },
    CreateRoutine { routine: Arc<Routine>, or_replace: bool },
    DropRoutine { name: String, function: bool },
    Block(Block),
    Commit,
    Rollback,
    /// `ALTER SESSION SET name = value`.
    AlterSession { name: String, value: String },
}

pub open spec fn expr_tree(e: Expr) -> tree::Expr
    decreases e,
{
    match e {
        Expr::Literal(a) => tree::Expr::Literal(a@),
        Expr::Bind(a) => tree::Expr::Bind(a as int),
        Expr::Column { table, name } => tree::Expr::Column {
            table: opt_text_tree(table),
            name: name@,
        },
        Expr::Neg(a) => tree::Expr::Neg(Box::new(expr_tree(*a))),
        Expr::Not(a) => tree::Expr::Not(Box::new(expr_tree(*a))),
        Expr::Binary(a, b, c) => tree::Expr::Binary(a, Box::new(expr_tree(*b)), Box::new(expr_tree(*c))),
        Expr::IsNull { expr, negated } => tree::Expr::IsNull {
            expr: Box::new(expr_tree(*expr)),
            negated,
        },
        Expr::Between { expr, low, high, negated } => tree::Expr::Between {
            expr: Box::new(expr_tree(*expr)),
            low: Box::new(expr_tree(*low)),
            high: Box::new(expr_tree(*high)),
            negated,
        },
        Expr::InList { expr, list, negated } => tree::Expr::InList {
            expr: Box::new(expr_tree(*expr)),
            list: exprs_tree(list),
            negated,
        },
        Expr::InSubquery { expr, query, negated } => tree::Expr::InSubquery {
            expr: Box::new(expr_tree(*expr)),
            query: Box::new(query_tree(*query)),
            negated,
        },
        Expr::Exists(a) => tree::Expr::Exists(Box::new(query_tree(*a))),
        Expr::Like { expr, pattern, escape, negated } => tree::Expr::Like {
            expr: Box::new(expr_tree(*expr)),
            pattern: Box::new(expr_tree(*pattern)),
            escape: opt_boxed_expr_tree(escape),
            negated,
        },
        Expr::Case { operand, whens, else_ } => tree::Expr::Case {
            operand: opt_boxed_expr_tree(operand),
            whens: expr_exprs_tree(whens),
            else_: opt_boxed_expr_tree(else_),
        },
        Expr::Function { name, args, distinct } => tree::Expr::Function {
            name: name@,
            args: exprs_tree(args),
            distinct,
        },
        Expr::CountStar => tree::Expr::CountStar,
        Expr::Subquery(a) => tree::Expr::Subquery(Box::new(query_tree(*a))),
        Expr::RowNum => tree::Expr::RowNum,
    }
}

impl View for Expr {
    type V = tree::Expr;

    open spec fn view(&self) -> tree::Expr {
        expr_tree(*self)
    }
}

pub fn copy_expr(e: &Expr) -> (r: Expr)
    ensures
        r@ == e@,
    decreases e,
{
    match e {
        Expr::Literal(a) => Expr::Literal(a.clone()),
        Expr::Bind(a) => Expr::Bind(*a),
        Expr::Column { table, name } => Expr::Column {
            table: copy_opt_text(table),
            name: name.clone(),
        },
        Expr::Neg(a) => Expr::Neg(Box::new(copy_expr(a))),
        Expr::Not(a) => Expr::Not(Box::new(copy_expr(a))),
        Expr::Binary(a, b, c) => Expr::Binary(*a, Box::new(copy_expr(b)), Box::new(copy_expr(c))),
        Expr::IsNull { expr, negated } => Expr::IsNull {
            expr: Box::new(copy_expr(expr)),
            negated: *negated,
        },
        Expr::Between { expr, low, high, negated } => Expr::Between {
            expr: Box::new(copy_expr(expr)),
            low: Box::new(copy_expr(low)),
            high: Box::new(copy_expr(high)),
            negated: *negated,
        },
        Expr::InList { expr, list, negated } => Expr::InList {
            expr: Box::new(copy_expr(expr)),
            list: copy_exprs(list),
            negated: *negated,
        },
        Expr::InSubquery { expr, query, negated } => Expr::InSubquery {
            expr: Box::new(copy_expr(expr)),
            query: Box::new(copy_query(query)),
            negated: *negated,
        },
        Expr::Exists(a) => Expr::Exists(Box::new(copy_query(a))),
        Expr::Like { expr, pattern, escape, negated } => Expr::Like {
            expr: Box::new(copy_expr(expr)),
            pattern: Box::new(copy_expr(pattern)),
            escape: copy_opt_boxed_expr(escape),
            negated: *negated,
        },
        Expr::Case { operand, whens, else_ } => Expr::Case {
            operand: copy_opt_boxed_expr(operand),
            whens: copy_expr_exprs(whens),
            else_: copy_opt_boxed_expr(else_),
        },
        Expr::Function { name, args, distinct } => Expr::Function {
            name: name.clone(),
            args: copy_exprs(args),
            distinct: *distinct,
        },
        Expr::CountStar => Expr::CountStar,
        Expr::Subquery(a) => Expr::Subquery(Box::new(copy_query(a))),
        Expr::RowNum => Expr::RowNum,
    }
}

pub open spec fn query_tree(e: Query) -> tree::Query
    decreases e,
{
    tree::Query {
        body: set_expr_tree(e.body),
        order_by: order_items_tree(e.order_by),
        offset: opt_expr_tree(e.offset),
        fetch: opt_expr_tree(e.fetch),
    }
}

impl View for Query {
    type V = tree::Query;

    open spec fn view(&self) -> tree::Query {
        query_tree(*self)
    }
}

pub fn copy_query(e: &Query) -> (r: Query)
    ensures
        r@ == e@,
    decreases e,
{
    Query {
        body: copy_set_expr(&e.body),
        order_by: copy_order_items(&e.order_by),
        offset: copy_opt_expr(&e.offset),
        fetch: copy_opt_expr(&e.fetch),
    }
}

pub open spec fn set_expr_tree(e: SetExpr) -> tree::SetExpr
    decreases e,
{
    match e {
        SetExpr::Select(a) => tree::SetExpr::Select(Box::new(select_tree(*a))),
        SetExpr::SetOp { op, left, right } => tree::SetExpr::SetOp {
            op,
            left: Box::new(set_expr_tree(*left)),
            right: Box::new(set_expr_tree(*right)),
        },
    }
}

impl View for SetExpr {
    type V = tree::SetExpr;

    open spec fn view(&self) -> tree::SetExpr {
        set_expr_tree(*self)
    }
}

pub fn copy_set_expr(e: &SetExpr) -> (r: SetExpr)
    ensures
        r@ == e@,
    decreases e,
{
    match e {
        SetExpr::Select(a) => SetExpr::Select(Box::new(copy_select(a))),
        SetExpr::SetOp { op, left, right } => SetExpr::SetOp {
            op: *op,
            left: Box::new(copy_set_expr(left)),
            right: Box::new(copy_set_expr(right)),
        },
    }
}

pub open spec fn select_tree(e: Select) -> tree::Select
    decreases e,
{
    tree::Select {
        distinct: e.distinct,
        items: select_items_tree(e.items),
        from: from_items_tree(e.from),
        where_: opt_expr_tree(e.where_),
        group_by: exprs_tree(e.group_by),
        having: opt_expr_tree(e.having),
    }
}

impl View for Select {
    type V = tree::Select;

    open spec fn view(&self) -> tree::Select {
        select_tree(*self)
    }
}

pub fn copy_select(e: &Select) -> (r: Select)
    ensures
        r@ == e@,
    decreases e,
{
    Select {
        distinct: e.distinct,
        items: copy_select_items(&e.items),
        from: copy_from_items(&e.from),
        where_: copy_opt_expr(&e.where_),
        group_by: copy_exprs(&e.group_by),
        having: copy_opt_expr(&e.having),
    }
}

pub open spec fn select_item_tree(e: SelectItem) -> tree::SelectItem
    decreases e,
{
    match e {
        SelectItem::Expr { expr, name } => tree::SelectItem::Expr {
            expr: expr_tree(expr),
            name: name@,
        },
        SelectItem::Star => tree::SelectItem::Star,
        SelectItem::QualifiedStar(a) => tree::SelectItem::QualifiedStar(a@),
    }
}

impl View for SelectItem {
    type V = tree::SelectItem;

    open spec fn view(&self) -> tree::SelectItem {
        select_item_tree(*self)
    }
}

pub fn copy_select_item(e: &SelectItem) -> (r: SelectItem)
    ensures
        r@ == e@,
    decreases e,
{
    match e {
        SelectItem::Expr { expr, name } => SelectItem::Expr {
            expr: copy_expr(expr),
            name: name.clone(),
        },
        SelectItem::Star => SelectItem::Star,
        SelectItem::QualifiedStar(a) => SelectItem::QualifiedStar(a.clone()),
    }
}

pub open spec fn from_item_tree(e: FromItem) -> tree::FromItem
    decreases e,
{
    tree::FromItem {
        factor: table_factor_tree(e.factor),
        joins: joins_tree(e.joins),
    }
}

impl View for FromItem {
    type V = tree::FromItem;

    open spec fn view(&self) -> tree::FromItem {
        from_item_tree(*self)
    }
}

pub fn copy_from_item(e: &FromItem) -> (r: FromItem)
    ensures
        r@ == e@,
    decreases e,
{
    FromItem {
        factor: copy_table_factor(&e.factor),
        joins: copy_joins(&e.joins),
    }
}

pub open spec fn table_factor_tree(e: TableFactor) -> tree::TableFactor
    decreases e,
{
    match e {
        TableFactor::Table { name, alias } => tree::TableFactor::Table {
            name: name@,
            alias: opt_text_tree(alias),
        },
        TableFactor::Subquery { query, alias } => tree::TableFactor::Subquery {
            query: Box::new(query_tree(*query)),
            alias: opt_text_tree(alias),
        },
    }
}

impl View for TableFactor {
    type V = tree::TableFactor;

    open spec fn view(&self) -> tree::TableFactor {
        table_factor_tree(*self)
    }
}

pub fn copy_table_factor(e: &TableFactor) -> (r: TableFactor)
    ensures
        r@ == e@,
    decreases e,
{
    match e {
        TableFactor::Table { name, alias } => TableFactor::Table {
            name: name.clone(),
            alias: copy_opt_text(alias),
        },
        TableFactor::Subquery { query, alias } => TableFactor::Subquery {
            query: Box::new(copy_query(query)),
            alias: copy_opt_text(alias),
        },
    }
}

pub open spec fn join_tree(e: Join) -> tree::Join
    decreases e,
{
    tree::Join {
        kind: e.kind,
        factor: table_factor_tree(e.factor),
        on: opt_expr_tree(e.on),
    }
}

impl View for Join {
    type V = tree::Join;

    open spec fn view(&self) -> tree::Join {
        join_tree(*self)
    }
}

pub fn copy_join(e: &Join) -> (r: Join)
    ensures
        r@ == e@,
    decreases e,
{
    Join {
        kind: e.kind,
        factor: copy_table_factor(&e.factor),
        on: copy_opt_expr(&e.on),
    }
}

pub open spec fn order_item_tree(e: OrderItem) -> tree::OrderItem
    decreases e,
{
    tree::OrderItem {
        expr: expr_tree(e.expr),
        desc: e.desc,
        nulls_first: e.nulls_first,
    }
}

impl View for OrderItem {
    type V = tree::OrderItem;

    open spec fn view(&self) -> tree::OrderItem {
        order_item_tree(*self)
    }
}

pub fn copy_order_item(e: &OrderItem) -> (r: OrderItem)
    ensures
        r@ == e@,
    decreases e,
{
    OrderItem {
        expr: copy_expr(&e.expr),
        desc: e.desc,
        nulls_first: e.nulls_first,
    }
}

pub open spec fn returning_tree(e: Returning) -> tree::Returning
    decreases e,
{
    tree::Returning {
        exprs: exprs_tree(e.exprs),
        into: exprs_tree(e.into),
    }
}

impl View for Returning {
    type V = tree::Returning;

    open spec fn view(&self) -> tree::Returning {
        returning_tree(*self)
    }
}

pub fn copy_returning(e: &Returning) -> (r: Returning)
    ensures
        r@ == e@,
    decreases e,
{
    Returning {
        exprs: copy_exprs(&e.exprs),
        into: copy_exprs(&e.into),
    }
}

pub open spec fn insert_tree(e: Insert) -> tree::Insert
    decreases e,
{
    tree::Insert {
        table: e.table@,
        columns: opt_texts_tree(e.columns),
        source: insert_source_tree(e.source),
        returning: opt_returning_tree(e.returning),
    }
}

impl View for Insert {
    type V = tree::Insert;

    open spec fn view(&self) -> tree::Insert {
        insert_tree(*self)
    }
}

pub fn copy_insert(e: &Insert) -> (r: Insert)
    ensures
        r@ == e@,
    decreases e,
{
    Insert {
        table: e.table.clone(),
        columns: copy_opt_texts(&e.columns),
        source: copy_insert_source(&e.source),
        returning: copy_opt_returning(&e.returning),
    }
}

pub open spec fn insert_source_tree(e: InsertSource) -> tree::InsertSource
    decreases e,
{
    match e {
        InsertSource::Values(a) => tree::InsertSource::Values(exprs_tree(a)),
        InsertSource::Query(a) => tree::InsertSource::Query(Box::new(query_tree(*a))),
    }
}

impl View for InsertSource {
    type V = tree::InsertSource;

    open spec fn view(&self) -> tree::InsertSource {
        insert_source_tree(*self)
    }
}

pub fn copy_insert_source(e: &InsertSource) -> (r: InsertSource)
    ensures
        r@ == e@,
    decreases e,
{
    match e {
        InsertSource::Values(a) => InsertSource::Values(copy_exprs(a)),
        InsertSource::Query(a) => InsertSource::Query(Box::new(copy_query(a))),
    }
}

pub open spec fn update_tree(e: Update) -> tree::Update
    decreases e,
{
    tree::Update {
        table: e.table@,
        alias: opt_text_tree(e.alias),
        assignments: text_exprs_tree(e.assignments),
        where_: opt_expr_tree(e.where_),
        returning: opt_returning_tree(e.returning),
    }
}

impl View for Update {
    type V = tree::Update;

    open spec fn view(&self) -> tree::Update {
        update_tree(*self)
    }
}

pub fn copy_update(e: &Update) -> (r: Update)
    ensures
        r@ == e@,
    decreases e,
{
    Update {
        table: e.table.clone(),
        alias: copy_opt_text(&e.alias),
        assignments: copy_text_exprs(&e.assignments),
        where_: copy_opt_expr(&e.where_),
        returning: copy_opt_returning(&e.returning),
    }
}

pub open spec fn delete_tree(e: Delete) -> tree::Delete
    decreases e,
{
    tree::Delete {
        table: e.table@,
        alias: opt_text_tree(e.alias),
        where_: opt_expr_tree(e.where_),
        returning: opt_returning_tree(e.returning),
    }
}

impl View for Delete {
    type V = tree::Delete;

    open spec fn view(&self) -> tree::Delete {
        delete_tree(*self)
    }
}

pub fn copy_delete(e: &Delete) -> (r: Delete)
    ensures
        r@ == e@,
    decreases e,
{
    Delete {
        table: e.table.clone(),
        alias: copy_opt_text(&e.alias),
        where_: copy_opt_expr(&e.where_),
        returning: copy_opt_returning(&e.returning),
    }
}

pub open spec fn create_table_tree(e: CreateTable) -> tree::CreateTable
    decreases e,
{
    tree::CreateTable {
        name: e.name@,
        columns: column_defs_tree(e.columns),
        constraints: table_constraints_tree(e.constraints),
        as_query: opt_boxed_query_tree(e.as_query),
    }
}

impl View for CreateTable {
    type V = tree::CreateTable;

    open spec fn view(&self) -> tree::CreateTable {
        create_table_tree(*self)
    }
}

pub fn copy_create_table(e: &CreateTable) -> (r: CreateTable)
    ensures
        r@ == e@,
    decreases e,
{
    CreateTable {
        name: e.name.clone(),
        columns: copy_column_defs(&e.columns),
        constraints: copy_table_constraints(&e.constraints),
        as_query: copy_opt_boxed_query(&e.as_query),
    }
}

pub open spec fn column_def_tree(e: ColumnDef) -> tree::ColumnDef
    decreases e,
{
    tree::ColumnDef {
        name: e.name@,
        sql_type: e.sql_type,
        default: opt_expr_tree(e.default),
        not_null: e.not_null,
        identity: e.identity,
    }
}

impl View for ColumnDef {
    type V = tree::ColumnDef;

    open spec fn view(&self) -> tree::ColumnDef {
        column_def_tree(*self)
    }
}

pub fn copy_column_def(e: &ColumnDef) -> (r: ColumnDef)
    ensures
        r@ == e@,
    decreases e,
{
    ColumnDef {
        name: e.name.clone(),
        sql_type: e.sql_type,
        default: copy_opt_expr(&e.default),
        not_null: e.not_null,
        identity: e.identity,
    }
}

pub open spec fn table_constraint_tree(e: TableConstraint) -> tree::TableConstraint
    decreases e,
{
    tree::TableConstraint {
        name: opt_text_tree(e.name),
        kind: constraint_kind_tree(e.kind),
    }
}

impl View for TableConstraint {
    type V = tree::TableConstraint;

    open spec fn view(&self) -> tree::TableConstraint {
        table_constraint_tree(*self)
    }
}

pub fn copy_table_constraint(e: &TableConstraint) -> (r: TableConstraint)
    ensures
        r@ == e@,
    decreases e,
{
    TableConstraint {
        name: copy_opt_text(&e.name),
        kind: copy_constraint_kind(&e.kind),
    }
}

pub open spec fn constraint_kind_tree(e: ConstraintKind) -> tree::ConstraintKind
    decreases e,
{
    match e {
        ConstraintKind::PrimaryKey(a) => tree::ConstraintKind::PrimaryKey(texts_tree(a)),
        ConstraintKind::Unique(a) => tree::ConstraintKind::Unique(texts_tree(a)),
        ConstraintKind::Check(a) => tree::ConstraintKind::Check(expr_tree(a)),
        ConstraintKind::ForeignKey { columns, table, ref_columns } => tree::ConstraintKind::ForeignKey {
            columns: texts_tree(columns),
            table: table@,
            ref_columns: texts_tree(ref_columns),
        },
    }
}

impl View for ConstraintKind {
    type V = tree::ConstraintKind;

    open spec fn view(&self) -> tree::ConstraintKind {
        constraint_kind_tree(*self)
    }
}

pub fn copy_constraint_kind(e: &ConstraintKind) -> (r: ConstraintKind)
    ensures
        r@ == e@,
    decreases e,
{
    match e {
        ConstraintKind::PrimaryKey(a) => ConstraintKind::PrimaryKey(copy_texts(a)),
        ConstraintKind::Unique(a) => ConstraintKind::Unique(copy_texts(a)),
        ConstraintKind::Check(a) => ConstraintKind::Check(copy_expr(a)),
        ConstraintKind::ForeignKey { columns, table, ref_columns } => ConstraintKind::ForeignKey {
            columns: copy_texts(columns),
            table: table.clone(),
            ref_columns: copy_texts(ref_columns),
        },
    }
}

pub open spec fn statement_tree(e: Statement) -> tree::Statement
    decreases e,
{
    match e {
        Statement::Query(a) => tree::Statement::Query(query_tree(a)),
        Statement::Insert(a) => tree::Statement::Insert(insert_tree(a)),
        Statement::Update(a) => tree::Statement::Update(update_tree(a)),
        Statement::Delete(a) => tree::Statement::Delete(delete_tree(a)),
        Statement::CreateTable(a) => tree::Statement::CreateTable(create_table_tree(a)),
        Statement::DropTable { name } => tree::Statement::DropTable { name: name@ },
        Statement::CreateIndex { name, table, columns, unique } => tree::Statement::CreateIndex {
            name: name@,
            table: table@,
            columns: texts_tree(columns),
            unique,
        },
        Statement::DropIndex { name } => tree::Statement::DropIndex { name: name@ },
        Statement::Truncate { name } => tree::Statement::Truncate { name: name@ },
        Statement::CreateSequence { name, options } => tree::Statement::CreateSequence {
            name: name@,
            options: options@,
        },
        Statement::AlterSequence { name, options } => tree::Statement::AlterSequence {
            name: name@,
            options: options@,
        },
        Statement::DropSequence { name } => tree::Statement::DropSequence { name: name@ },
        Statement::CreateRoutine { routine, or_replace } => tree::Statement::CreateRoutine {
            routine: Box::new(plsql::routine_tree(*routine)),
            or_replace,
        },
        Statement::DropRoutine { name, function } => tree::Statement::DropRoutine {
            name: name@,
            function,
        },
        Statement::Block(a) => tree::Statement::Block(plsql::block_tree(a)),
        Statement::Commit => tree::Statement::Commit,
        Statement::Rollback => tree::Statement::Rollback,
        Statement::AlterSession { name, value } => tree::Statement::AlterSession {
            name: name@,
            value: value@,
        },
    }
}

impl View for Statement {
    type V = tree::Statement;

    open spec fn view(&self) -> tree::Statement {
        statement_tree(*self)
    }
}

pub fn copy_statement(e: &Statement) -> (r: Statement)
    ensures
        r@ == e@,
    decreases e,
{
    match e {
        Statement::Query(a) => Statement::Query(copy_query(a)),
        Statement::Insert(a) => Statement::Insert(copy_insert(a)),
        Statement::Update(a) => Statement::Update(copy_update(a)),
        Statement::Delete(a) => Statement::Delete(copy_delete(a)),
        Statement::CreateTable(a) => Statement::CreateTable(copy_create_table(a)),
        Statement::DropTable { name } => Statement::DropTable { name: name.clone() },
        Statement::CreateIndex { name, table, columns, unique } => Statement::CreateIndex {
            name: name.clone(),
            table: table.clone(),
            columns: copy_texts(columns),
            unique: *unique,
        },
        Statement::DropIndex { name } => Statement::DropIndex { name: name.clone() },
        Statement::Truncate { name } => Statement::Truncate { name: name.clone() },
        Statement::CreateSequence { name, options } => Statement::CreateSequence {
            name: name.clone(),
            options: copy_options(options),
        },
        Statement::AlterSequence { name, options } => Statement::AlterSequence {
            name: name.clone(),
            options: copy_options(options),
        },
        Statement::DropSequence { name } => Statement::DropSequence { name: name.clone() },
        Statement::CreateRoutine { routine, or_replace } => Statement::CreateRoutine {
            routine: routine.clone(),
            or_replace: *or_replace,
        },
        Statement::DropRoutine { name, function } => Statement::DropRoutine {
            name: name.clone(),
            function: *function,
        },
        Statement::Block(a) => Statement::Block(plsql::copy_block(a)),
        Statement::Commit => Statement::Commit,
        Statement::Rollback => Statement::Rollback,
        Statement::AlterSession { name, value } => Statement::AlterSession {
            name: name.clone(),
            value: value.clone(),
        },
    }
}

pub open spec fn opt_text_tree(e: Option<String>) -> Option<Seq<char>>
    decreases e,
{
    match e {
        Some(x) => Some(x@),
        None => None,
    }
}

pub fn copy_opt_text(e: &Option<String>) -> (r: Option<String>)
    ensures
        opt_text_tree(r) == opt_text_tree(*e),
    decreases e,
{
    match e {
        Some(x) => Some(x.clone()),
        None => None,
    }
}

pub open spec fn exprs_tree(e: Vec<Expr>) -> Seq<tree::Expr>
    decreases e,
{
    Seq::new(
        e@.len(),
        |i: int|
            if 0 <= i < e@.len() {
                expr_tree(e@[i])
            } else {
                arbitrary()
            },
    )
}

pub fn no_exprs() -> (r: Vec<Expr>)
    ensures
        exprs_tree(r) == Seq::<tree::Expr>::empty(),
{
    let r: Vec<Expr> = Vec::new();
    assert(exprs_tree(r) =~= Seq::<tree::Expr>::empty());
    r
}

pub fn copy_exprs(e: &Vec<Expr>) -> (r: Vec<Expr>)
    ensures
        exprs_tree(r) == exprs_tree(*e),
    decreases e,
{
    let mut out: Vec<Expr> = Vec::new();
    for i in 0..e.len()
        invariant
            exprs_tree(out) == exprs_tree(*e).take(i as int),
    {
        let x = copy_expr(&e[i]);
        let ghost before = out;
        out.push(x);
        assert(exprs_tree(out) =~= exprs_tree(before).push(expr_tree(x)));
        assert(exprs_tree(out) =~= exprs_tree(*e).take(i + 1));
    }
    assert(exprs_tree(out) =~= exprs_tree(*e));
    out
}

pub open spec fn opt_boxed_expr_tree(e: Option<Box<Expr>>) -> Option<Box<tree::Expr>>
    decreases e,
{
    match e {
        Some(x) => Some(Box::new(expr_tree(*x))),
        None => None,
    }
}

pub fn copy_opt_boxed_expr(e: &Option<Box<Expr>>) -> (r: Option<Box<Expr>>)
    ensures
        opt_boxed_expr_tree(r) == opt_boxed_expr_tree(*e),
    decreases e,
{
    match e {
        Some(x) => Some(Box::new(copy_expr(x))),
        None => None,
    }
}

pub open spec fn expr_exprs_tree(e: Vec<(Expr, Expr)>) -> Seq<(tree::Expr, tree::Expr)>
    decreases e,
{
    Seq::new(
        e@.len(),
        |i: int|
            if 0 <= i < e@.len() {
                (expr_tree(e@[i].0), expr_tree(e@[i].1))
            } else {
                arbitrary()
            },
    )
}

pub fn no_expr_exprs() -> (r: Vec<(Expr, Expr)>)
    ensures
        expr_exprs_tree(r) == Seq::<(tree::Expr, tree::Expr)>::empty(),
{
    let r: Vec<(Expr, Expr)> = Vec::new();
    assert(expr_exprs_tree(r) =~= Seq::<(tree::Expr, tree::Expr)>::empty());
    r
}

pub fn copy_expr_exprs(e: &Vec<(Expr, Expr)>) -> (r: Vec<(Expr, Expr)>)
    ensures
        expr_exprs_tree(r) == expr_exprs_tree(*e),
    decreases e,
{
    let mut out: Vec<(Expr, Expr)> = Vec::new();
    for i in 0..e.len()
        invariant
            expr_exprs_tree(out) == expr_exprs_tree(*e).take(i as int),
    {
        let x = (copy_expr(&e[i].0), copy_expr(&e[i].1));
        let ghost before = out;
        out.push(x);
        assert(expr_exprs_tree(out) =~= expr_exprs_tree(before).push((expr_tree(x.0), expr_tree(x.1))));
        assert(expr_exprs_tree(out) =~= expr_exprs_tree(*e).take(i + 1));
    }
    assert(expr_exprs_tree(out) =~= expr_exprs_tree(*e));
    out
}

pub open spec fn order_items_tree(e: Vec<OrderItem>) -> Seq<tree::OrderItem>
    decreases e,
{
    Seq::new(
        e@.len(),
        |i: int|
            if 0 <= i < e@.len() {
                order_item_tree(e@[i])
            } else {
                arbitrary()
            },
    )
}

pub fn no_order_items() -> (r: Vec<OrderItem>)
    ensures
        order_items_tree(r) == Seq::<tree::OrderItem>::empty(),
{
    let r: Vec<OrderItem> = Vec::new();
    assert(order_items_tree(r) =~= Seq::<tree::OrderItem>::empty());
    r
}

pub fn copy_order_items(e: &Vec<OrderItem>) -> (r: Vec<OrderItem>)
    ensures
        order_items_tree(r) == order_items_tree(*e),
    decreases e,
{
    let mut out: Vec<OrderItem> = Vec::new();
    for i in 0..e.len()
        invariant
            order_items_tree(out) == order_items_tree(*e).take(i as int),
    {
        let x = copy_order_item(&e[i]);
        let ghost before = out;
        out.push(x);
        assert(order_items_tree(out) =~= order_items_tree(before).push(order_item_tree(x)));
        assert(order_items_tree(out) =~= order_items_tree(*e).take(i + 1));
    }
    assert(order_items_tree(out) =~= order_items_tree(*e));
    out
}

pub open spec fn opt_expr_tree(e: Option<Expr>) -> Option<tree::Expr>
    decreases e,
{
    match e {
        Some(x) => Some(expr_tree(x)),
        None => None,
    }
}

pub fn copy_opt_expr(e: &Option<Expr>) -> (r: Option<Expr>)
    ensures
        opt_expr_tree(r) == opt_expr_tree(*e),
    decreases e,
{
    match e {
        Some(x) => Some(copy_expr(x)),
        None => None,
    }
}

pub open spec fn select_items_tree(e: Vec<SelectItem>) -> Seq<tree::SelectItem>
    decreases e,
{
    Seq::new(
        e@.len(),
        |i: int|
            if 0 <= i < e@.len() {
                select_item_tree(e@[i])
            } else {
                arbitrary()
            },
    )
}

pub fn no_select_items() -> (r: Vec<SelectItem>)
    ensures
        select_items_tree(r) == Seq::<tree::SelectItem>::empty(),
{
    let r: Vec<SelectItem> = Vec::new();
    assert(select_items_tree(r) =~= Seq::<tree::SelectItem>::empty());
    r
}

pub fn copy_select_items(e: &Vec<SelectItem>) -> (r: Vec<SelectItem>)
    ensures
        select_items_tree(r) == select_items_tree(*e),
    decreases e,
{
    let mut out: Vec<SelectItem> = Vec::new();
    for i in 0..e.len()
        invariant
            select_items_tree(out) == select_items_tree(*e).take(i as int),
    {
        let x = copy_select_item(&e[i]);
        let ghost before = out;
        out.push(x);
        assert(select_items_tree(out) =~= select_items_tree(before).push(select_item_tree(x)));
        assert(select_items_tree(out) =~= select_items_tree(*e).take(i + 1));
    }
    assert(select_items_tree(out) =~= select_items_tree(*e));
    out
}

pub open spec fn from_items_tree(e: Vec<FromItem>) -> Seq<tree::FromItem>
    decreases e,
{
    Seq::new(
        e@.len(),
        |i: int|
            if 0 <= i < e@.len() {
                from_item_tree(e@[i])
            } else {
                arbitrary()
            },
    )
}

pub fn no_from_items() -> (r: Vec<FromItem>)
    ensures
        from_items_tree(r) == Seq::<tree::FromItem>::empty(),
{
    let r: Vec<FromItem> = Vec::new();
    assert(from_items_tree(r) =~= Seq::<tree::FromItem>::empty());
    r
}

pub fn copy_from_items(e: &Vec<FromItem>) -> (r: Vec<FromItem>)
    ensures
        from_items_tree(r) == from_items_tree(*e),
    decreases e,
{
    let mut out: Vec<FromItem> = Vec::new();
    for i in 0..e.len()
        invariant
            from_items_tree(out) == from_items_tree(*e).take(i as int),
    {
        let x = copy_from_item(&e[i]);
        let ghost before = out;
        out.push(x);
        assert(from_items_tree(out) =~= from_items_tree(before).push(from_item_tree(x)));
        assert(from_items_tree(out) =~= from_items_tree(*e).take(i + 1));
    }
    assert(from_items_tree(out) =~= from_items_tree(*e));
    out
}

pub open spec fn joins_tree(e: Vec<Join>) -> Seq<tree::Join>
    decreases e,
{
    Seq::new(
        e@.len(),
        |i: int|
            if 0 <= i < e@.len() {
                join_tree(e@[i])
            } else {
                arbitrary()
            },
    )
}

pub fn no_joins() -> (r: Vec<Join>)
    ensures
        joins_tree(r) == Seq::<tree::Join>::empty(),
{
    let r: Vec<Join> = Vec::new();
    assert(joins_tree(r) =~= Seq::<tree::Join>::empty());
    r
}

pub fn copy_joins(e: &Vec<Join>) -> (r: Vec<Join>)
    ensures
        joins_tree(r) == joins_tree(*e),
    decreases e,
{
    let mut out: Vec<Join> = Vec::new();
    for i in 0..e.len()
        invariant
            joins_tree(out) == joins_tree(*e).take(i as int),
    {
        let x = copy_join(&e[i]);
        let ghost before = out;
        out.push(x);
        assert(joins_tree(out) =~= joins_tree(before).push(join_tree(x)));
        assert(joins_tree(out) =~= joins_tree(*e).take(i + 1));
    }
    assert(joins_tree(out) =~= joins_tree(*e));
    out
}

pub open spec fn opt_texts_tree(e: Option<Vec<String>>) -> Option<Seq<Seq<char>>>
    decreases e,
{
    match e {
        Some(x) => Some(texts_tree(x)),
        None => None,
    }
}

pub fn copy_opt_texts(e: &Option<Vec<String>>) -> (r: Option<Vec<String>>)
    ensures
        opt_texts_tree(r) == opt_texts_tree(*e),
    decreases e,
{
    match e {
        Some(x) => Some(copy_texts(x)),
        None => None,
    }
}

pub open spec fn opt_returning_tree(e: Option<Returning>) -> Option<tree::Returning>
    decreases e,
{
    match e {
        Some(x) => Some(returning_tree(x)),
        None => None,
    }
}

pub fn copy_opt_returning(e: &Option<Returning>) -> (r: Option<Returning>)
    ensures
        opt_returning_tree(r) == opt_returning_tree(*e),
    decreases e,
{
    match e {
        Some(x) => Some(copy_returning(x)),
        None => None,
    }
}

pub open spec fn text_exprs_tree(e: Vec<(String, Expr)>) -> Seq<(Seq<char>, tree::Expr)>
    decreases e,
{
    Seq::new(
        e@.len(),
        |i: int|
            if 0 <= i < e@.len() {
                (e@[i].0@, expr_tree(e@[i].1))
            } else {
                arbitrary()
            },
    )
}

pub fn no_text_exprs() -> (r: Vec<(String, Expr)>)
    ensures
        text_exprs_tree(r) == Seq::<(Seq<char>, tree::Expr)>::empty(),
{
    let r: Vec<(String, Expr)> = Vec::new();
    assert(text_exprs_tree(r) =~= Seq::<(Seq<char>, tree::Expr)>::empty());
    r
}

pub fn copy_text_exprs(e: &Vec<(String, Expr)>) -> (r: Vec<(String, Expr)>)
    ensures
        text_exprs_tree(r) == text_exprs_tree(*e),
    decreases e,
{
    let mut out: Vec<(String, Expr)> = Vec::new();
    for i in 0..e.len()
        invariant
            text_exprs_tree(out) == text_exprs_tree(*e).take(i as int),
    {
        let x = (e[i].0.clone(), copy_expr(&e[i].1));
        let ghost before = out;
        out.push(x);
        assert(text_exprs_tree(out) =~= text_exprs_tree(before).push((x.0@, expr_tree(x.1))));
        assert(text_exprs_tree(out) =~= text_exprs_tree(*e).take(i + 1));
    }
    assert(text_exprs_tree(out) =~= text_exprs_tree(*e));
    out
}

pub open spec fn column_defs_tree(e: Vec<ColumnDef>) -> Seq<tree::ColumnDef>
    decreases e,
{
    Seq::new(
        e@.len(),
        |i: int|
            if 0 <= i < e@.len() {
                column_def_tree(e@[i])
            } else {
                arbitrary()
            },
    )
}

pub fn no_column_defs() -> (r: Vec<ColumnDef>)
    ensures
        column_defs_tree(r) == Seq::<tree::ColumnDef>::empty(),
{
    let r: Vec<ColumnDef> = Vec::new();
    assert(column_defs_tree(r) =~= Seq::<tree::ColumnDef>::empty());
    r
}

pub fn copy_column_defs(e: &Vec<ColumnDef>) -> (r: Vec<ColumnDef>)
    ensures
        column_defs_tree(r) == column_defs_tree(*e),
    decreases e,
{
    let mut out: Vec<ColumnDef> = Vec::new();
    for i in 0..e.len()
        invariant
            column_defs_tree(out) == column_defs_tree(*e).take(i as int),
    {
        let x = copy_column_def(&e[i]);
        let ghost before = out;
        out.push(x);
        assert(column_defs_tree(out) =~= column_defs_tree(before).push(column_def_tree(x)));
        assert(column_defs_tree(out) =~= column_defs_tree(*e).take(i + 1));
    }
    assert(column_defs_tree(out) =~= column_defs_tree(*e));
    out
}

pub open spec fn table_constraints_tree(e: Vec<TableConstraint>) -> Seq<tree::TableConstraint>
    decreases e,
{
    Seq::new(
        e@.len(),
        |i: int|
            if 0 <= i < e@.len() {
                table_constraint_tree(e@[i])
            } else {
                arbitrary()
            },
    )
}

pub fn no_table_constraints() -> (r: Vec<TableConstraint>)
    ensures
        table_constraints_tree(r) == Seq::<tree::TableConstraint>::empty(),
{
    let r: Vec<TableConstraint> = Vec::new();
    assert(table_constraints_tree(r) =~= Seq::<tree::TableConstraint>::empty());
    r
}

pub fn copy_table_constraints(e: &Vec<TableConstraint>) -> (r: Vec<TableConstraint>)
    ensures
        table_constraints_tree(r) == table_constraints_tree(*e),
    decreases e,
{
    let mut out: Vec<TableConstraint> = Vec::new();
    for i in 0..e.len()
        invariant
            table_constraints_tree(out) == table_constraints_tree(*e).take(i as int),
    {
        let x = copy_table_constraint(&e[i]);
        let ghost before = out;
        out.push(x);
        assert(table_constraints_tree(out) =~= table_constraints_tree(before).push(table_constraint_tree(x)));
        assert(table_constraints_tree(out) =~= table_constraints_tree(*e).take(i + 1));
    }
    assert(table_constraints_tree(out) =~= table_constraints_tree(*e));
    out
}

pub open spec fn opt_boxed_query_tree(e: Option<Box<Query>>) -> Option<Box<tree::Query>>
    decreases e,
{
    match e {
        Some(x) => Some(Box::new(query_tree(*x))),
        None => None,
    }
}

pub fn copy_opt_boxed_query(e: &Option<Box<Query>>) -> (r: Option<Box<Query>>)
    ensures
        opt_boxed_query_tree(r) == opt_boxed_query_tree(*e),
    decreases e,
{
    match e {
        Some(x) => Some(Box::new(copy_query(x))),
        None => None,
    }
}

pub open spec fn texts_tree(e: Vec<String>) -> Seq<Seq<char>>
    decreases e,
{
    Seq::new(
        e@.len(),
        |i: int|
            if 0 <= i < e@.len() {
                e@[i]@
            } else {
                arbitrary()
            },
    )
}

pub fn no_texts() -> (r: Vec<String>)
    ensures
        texts_tree(r) == Seq::<Seq<char>>::empty(),
{
    let r: Vec<String> = Vec::new();
    assert(texts_tree(r) =~= Seq::<Seq<char>>::empty());
    r
}

pub fn copy_texts(e: &Vec<String>) -> (r: Vec<String>)
    ensures
        texts_tree(r) == texts_tree(*e),
    decreases e,
{
    let mut out: Vec<String> = Vec::new();
    for i in 0..e.len()
        invariant
            texts_tree(out) == texts_tree(*e).take(i as int),
    {
        let x = e[i].clone();
        let ghost before = out;
        out.push(x);
        assert(texts_tree(out) =~= texts_tree(before).push(x@));
        assert(texts_tree(out) =~= texts_tree(*e).take(i + 1));
    }
    assert(texts_tree(out) =~= texts_tree(*e));
    out
}

pub open spec fn opt_exprs_tree(e: Option<Vec<Expr>>) -> Option<Seq<tree::Expr>>
    decreases e,
{
    match e {
        Some(x) => Some(exprs_tree(x)),
        None => None,
    }
}

pub fn copy_opt_exprs(e: &Option<Vec<Expr>>) -> (r: Option<Vec<Expr>>)
    ensures
        opt_exprs_tree(r) == opt_exprs_tree(*e),
    decreases e,
{
    match e {
        Some(x) => Some(copy_exprs(x)),
        None => None,
    }
}

fn copy_options(e: &Vec<SequenceOption>) -> (r: Vec<SequenceOption>)
    ensures
        r@ == e@,
{
    let mut out: Vec<SequenceOption> = Vec::new();
    for i in 0..e.len()
        invariant
            out@ == e@.take(i as int),
    {
        out.push(e[i]);
        assert(out@ =~= e@.take(i + 1));
    }
    assert(out@ =~= e@);
    out
}

} // verus!
