//! Parsing the definition of a table.

use vstd::prelude::*;
use vstd::string::*;

use crate::ast;
use crate::ast::{
    ColumnDef, ConstraintKind, CreateTable, Expr, Query, Statement, TableConstraint,
};
use crate::error;
use crate::error::{Failure, OraError};
use crate::parser as sql;
use crate::parser::blocks;
use crate::parser::{Parser, Source};
use crate::tree;

verus! {

fn one_name(name: &String) -> (r: Vec<String>)
    ensures
        ast::texts_tree(r) == seq![name@],
{
    let r: Vec<String> = vec![name.clone()];
    assert(ast::texts_tree(r) =~= seq![name@]);
    r
}

fn with_constraint(list: Vec<TableConstraint>, c: TableConstraint) -> (r: Vec<TableConstraint>)
    ensures
        ast::table_constraints_tree(r) == ast::table_constraints_tree(list).push(
            ast::table_constraint_tree(c),
        ),
{
    let mut out = list;
    out.push(c);
    assert(ast::table_constraints_tree(out) =~= ast::table_constraints_tree(list).push(
        ast::table_constraint_tree(c),
    ));
    out
}

fn with_column(list: Vec<ColumnDef>, d: ColumnDef) -> (r: Vec<ColumnDef>)
    ensures
        ast::column_defs_tree(r) == ast::column_defs_tree(list).push(ast::column_def_tree(d)),
{
    let mut out = list;
    out.push(d);
    assert(ast::column_defs_tree(out) =~= ast::column_defs_tree(list).push(
        ast::column_def_tree(d),
    ));
    out
}

/// `CREATE TABLE name AS query`.
pub open spec fn filled_from(name: Seq<char>, q: tree::Query) -> tree::CreateTable {
    tree::CreateTable {
        name,
        columns: Seq::empty(),
        constraints: Seq::empty(),
        as_query: Some(Box::new(q)),
    }
}

fn table_filled_from(name: String, q: Query) -> (r: CreateTable)
    ensures
        r@ == filled_from(name@, q@),
{
    let r = CreateTable {
        name,
        columns: Vec::new(),
        constraints: Vec::new(),
        as_query: Some(Box::new(q)),
    };
    assert(r@.columns =~= Seq::empty());
    assert(r@.constraints =~= Seq::empty());
    r
}

/// A table with its columns and constraints, or one that a query fills, behind CREATE TABLE.
pub open spec fn create_table(p: Source, i: int) -> Result<(tree::CreateTable, int), Failure>
    decreases p.lex.len() - i, 45int,
{
    match sql::within(sql::object_name(p, i), i + 1, p) {
        Err(e) => Err(e),
        Ok((name, i)) => {
            if sql::is_kw(p, i, "AS"@) {
                match sql::within(sql::query(p, i + 1), i + 2, p) {
                    Err(e) => Err(e),
                    Ok((q, i)) => {
                        Ok((filled_from(name, q), i))
                    },
                }
            } else {
                if !sql::is_sym(p, i, "("@) {
                    Err(error::failure(906, "missing left parenthesis"@))
                } else {
                    let i = i + 1;
                    match sql::within(table_parts(p, i, Seq::empty(), Seq::empty()), i + 1, p) {
                        Err(e) => Err(e),
                        Ok((parts, i)) => {
                            if !sql::is_sym(p, i, ")"@) {
                                Err(error::failure(907, "missing right parenthesis"@))
                            } else {
                                let i = i + 1;
                                Ok((tree::CreateTable { name, columns: parts.0, constraints: parts.1, as_query: None }, i))
                            }
                        },
                    }
                }
            }
        },
    }
}

/// Columns and constraints with commas between them.
pub open spec fn table_parts(p: Source, i: int, columns: Seq<tree::ColumnDef>, constraints: Seq<tree::TableConstraint>) -> Result<((Seq<tree::ColumnDef>, Seq<tree::TableConstraint>), int), Failure>
    decreases p.lex.len() - i, 44int,
{
    if sql::is_kw(p, i, "CONSTRAINT"@) || sql::is_kw(p, i, "PRIMARY"@) || sql::is_kw(p, i, "UNIQUE"@) || sql::is_kw(p, i, "CHECK"@) || sql::is_kw(p, i, "FOREIGN"@) {
        match sql::within(table_constraint(p, i), i + 1, p) {
            Err(e) => Err(e),
            Ok((c, i)) => {
                if !sql::is_sym(p, i, ","@) {
                    Ok(((columns, constraints.push(c)), i))
                } else {
                    let i = i + 1;
                    table_parts(p, i, columns, constraints.push(c))
                }
            },
        }
    } else {
        match sql::within(column_def(p, i), i + 1, p) {
            Err(e) => Err(e),
            Ok((found, i)) => {
                match sql::within(column_keys(p, i, constraints, found.name), i, p) {
                    Err(e) => Err(e),
                    Ok((rules, i)) => {
                        if !sql::is_sym(p, i, ","@) {
                            Ok(((columns.push(found), rules), i))
                        } else {
                            let i = i + 1;
                            table_parts(p, i, columns.push(found), rules)
                        }
                    },
                }
            },
        }
    }
}

/// `name type [DEFAULT value] [GENERATED .. AS IDENTITY] [NOT NULL]`
pub open spec fn column_def(p: Source, i: int) -> Result<(tree::ColumnDef, int), Failure>
    decreases p.lex.len() - i, 43int,
{
    match sql::within(sql::ident(p, i), i + 1, p) {
        Err(e) => Err(e),
        Ok((name, i)) => {
            match sql::within(blocks::data_type(p, i), i + 1, p) {
                Err(e) => Err(e),
                Ok((sql_type, i)) => {
                    match sql::within(default_clause_of_column_def(p, i), i, p) {
                        Err(e) => Err(e),
                        Ok((default, i)) => {
                            match sql::within(identity_clause(p, i), i, p) {
                                Err(e) => Err(e),
                                Ok((identity, i)) => {
                                    match sql::within(blocks::not_null(p, i), i, p) {
                                        Err(e) => Err(e),
                                        Ok((not_null, i)) => {
                                            Ok((tree::ColumnDef { name, sql_type, default, not_null, identity }, i))
                                        },
                                    }
                                },
                            }
                        },
                    }
                },
            }
        },
    }
}

/// `[GENERATED (ALWAYS | BY DEFAULT [ON NULL]) AS IDENTITY]`
pub open spec fn identity_clause(p: Source, i: int) -> Result<(bool, int), Failure>
    decreases p.lex.len() - i, 3int,
{
    if !sql::is_kw(p, i, "GENERATED"@) {
        Ok((false, i))
    } else {
        let i = i + 1;
        if sql::is_kw(p, i, "BY"@) {
            sql::within(by_default(p, i + 1), i + 2, p)
        } else {
            if !sql::is_kw(p, i, "ALWAYS"@) {
                Err(error::failure(905, "missing keyword"@))
            } else {
                let i = i + 1;
                sql::within(as_identity(p, i), i + 1, p)
            }
        }
    }
}

pub open spec fn by_default(p: Source, i: int) -> Result<(bool, int), Failure>
    decreases p.lex.len() - i, 2int,
{
    if !sql::is_kw(p, i, "DEFAULT"@) {
        Err(error::failure(905, "missing keyword"@))
    } else {
        let i = i + 1;
        if sql::is_kw(p, i, "ON"@) && sql::is_kw(p, i + 1, "NULL"@) {
            sql::within(as_identity(p, i + 2), i + 3, p)
        } else {
            sql::within(as_identity(p, i), i + 1, p)
        }
    }
}

pub open spec fn as_identity(p: Source, i: int) -> Result<(bool, int), Failure>
    decreases p.lex.len() - i, 1int,
{
    if !sql::is_kw(p, i, "AS"@) {
        Err(error::failure(905, "missing keyword"@))
    } else {
        let i = i + 1;
        if !sql::is_kw(p, i, "IDENTITY"@) {
            Err(error::failure(905, "missing keyword"@))
        } else {
            let i = i + 1;
            Ok((true, i))
        }
    }
}

/// Constraints behind a column.
pub open spec fn column_keys(p: Source, i: int, acc: Seq<tree::TableConstraint>, name: Seq<char>) -> Result<(Seq<tree::TableConstraint>, int), Failure>
    decreases p.lex.len() - i, 43int,
{
    if !(sql::is_kw(p, i, "CONSTRAINT"@) || sql::is_kw(p, i, "PRIMARY"@) || sql::is_kw(p, i, "UNIQUE"@) || sql::is_kw(p, i, "CHECK"@) || sql::is_kw(p, i, "REFERENCES"@)) {
        Ok((acc, i))
    } else {
        match sql::within(column_constraint(p, i, name), i + 1, p) {
            Err(e) => Err(e),
            Ok((c, i)) => {
                column_keys(p, i, acc.push(c), name)
            },
        }
    }
}

/// `[CONSTRAINT name] constraint` on one column.
pub open spec fn column_constraint(p: Source, i: int, column: Seq<char>) -> Result<(tree::TableConstraint, int), Failure>
    decreases p.lex.len() - i, 42int,
{
    match sql::within(column_constraint_name(p, i), i, p) {
        Err(e) => Err(e),
        Ok((name, i)) => {
            match sql::within(column_kind(p, i, column), i + 1, p) {
                Err(e) => Err(e),
                Ok((kind, i)) => {
                    Ok((tree::TableConstraint { name, kind }, i))
                },
            }
        },
    }
}

pub open spec fn column_kind(p: Source, i: int, column: Seq<char>) -> Result<(tree::ConstraintKind, int), Failure>
    decreases p.lex.len() - i, 41int,
{
    if sql::is_kw(p, i, "PRIMARY"@) {
        let i = i + 1;
        if !sql::is_kw(p, i, "KEY"@) {
            Err(error::failure(905, "missing keyword"@))
        } else {
            let i = i + 1;
            Ok((tree::ConstraintKind::PrimaryKey(seq![column]), i))
        }
    } else if sql::is_kw(p, i, "UNIQUE"@) {
        let i = i + 1;
        Ok((tree::ConstraintKind::Unique(seq![column]), i))
    } else if sql::is_kw(p, i, "REFERENCES"@) {
        sql::within(column_reference(p, i + 1, column), i + 2, p)
    } else {
        sql::within(check_kind(p, i), i + 1, p)
    }
}

/// The column that a column refers to, behind REFERENCES.
pub open spec fn column_reference(p: Source, i: int, column: Seq<char>) -> Result<(tree::ConstraintKind, int), Failure>
    decreases p.lex.len() - i, 40int,
{
    match sql::within(sql::object_name(p, i), i + 1, p) {
        Err(e) => Err(e),
        Ok((table, i)) => {
            match sql::within(column_reference_ref_columns(p, i), i, p) {
                Err(e) => Err(e),
                Ok((ref_columns, i)) => {
                    Ok((tree::ConstraintKind::ForeignKey { columns: seq![column], table, ref_columns }, i))
                },
            }
        },
    }
}

/// `CHECK (condition)`
pub open spec fn check_kind(p: Source, i: int) -> Result<(tree::ConstraintKind, int), Failure>
    decreases p.lex.len() - i, 40int,
{
    if !sql::is_kw(p, i, "CHECK"@) {
        Err(error::failure(905, "missing keyword"@))
    } else {
        let i = i + 1;
        if !sql::is_sym(p, i, "("@) {
            Err(error::failure(906, "missing left parenthesis"@))
        } else {
            let i = i + 1;
            match sql::within(sql::expr(p, i), i + 1, p) {
                Err(e) => Err(e),
                Ok((e, i)) => {
                    if !sql::is_sym(p, i, ")"@) {
                        Err(error::failure(907, "missing right parenthesis"@))
                    } else {
                        let i = i + 1;
                        Ok((tree::ConstraintKind::Check(e), i))
                    }
                },
            }
        }
    }
}

/// `[CONSTRAINT name] constraint`
pub open spec fn table_constraint(p: Source, i: int) -> Result<(tree::TableConstraint, int), Failure>
    decreases p.lex.len() - i, 42int,
{
    match sql::within(column_constraint_name(p, i), i, p) {
        Err(e) => Err(e),
        Ok((name, i)) => {
            match sql::within(constraint_kind(p, i), i + 1, p) {
                Err(e) => Err(e),
                Ok((kind, i)) => {
                    Ok((tree::TableConstraint { name, kind }, i))
                },
            }
        },
    }
}

pub open spec fn constraint_kind(p: Source, i: int) -> Result<(tree::ConstraintKind, int), Failure>
    decreases p.lex.len() - i, 41int,
{
    if sql::is_kw(p, i, "PRIMARY"@) {
        let i = i + 1;
        if !sql::is_kw(p, i, "KEY"@) {
            Err(error::failure(905, "missing keyword"@))
        } else {
            let i = i + 1;
            match sql::within(bracketed_names(p, i), i + 1, p) {
                Err(e) => Err(e),
                Ok((names, i)) => {
                    Ok((tree::ConstraintKind::PrimaryKey(names), i))
                },
            }
        }
    } else if sql::is_kw(p, i, "UNIQUE"@) {
        match sql::within(bracketed_names(p, i + 1), i + 2, p) {
            Err(e) => Err(e),
            Ok((names, i)) => {
                Ok((tree::ConstraintKind::Unique(names), i))
            },
        }
    } else if sql::is_kw(p, i, "FOREIGN"@) {
        sql::within(foreign_key(p, i + 1), i + 2, p)
    } else {
        sql::within(check_kind(p, i), i + 1, p)
    }
}

/// A foreign key, behind FOREIGN.
pub open spec fn foreign_key(p: Source, i: int) -> Result<(tree::ConstraintKind, int), Failure>
    decreases p.lex.len() - i, 40int,
{
    if !sql::is_kw(p, i, "KEY"@) {
        Err(error::failure(905, "missing keyword"@))
    } else {
        let i = i + 1;
        match sql::within(bracketed_names(p, i), i + 1, p) {
            Err(e) => Err(e),
            Ok((columns, i)) => {
                if !sql::is_kw(p, i, "REFERENCES"@) {
                    Err(error::failure(905, "missing keyword"@))
                } else {
                    let i = i + 1;
                    match sql::within(sql::object_name(p, i), i + 1, p) {
                        Err(e) => Err(e),
                        Ok((table, i)) => {
                            match sql::within(column_reference_ref_columns(p, i), i, p) {
                                Err(e) => Err(e),
                                Ok((ref_columns, i)) => {
                                    Ok((tree::ConstraintKind::ForeignKey { columns, table, ref_columns }, i))
                                },
                            }
                        },
                    }
                }
            },
        }
    }
}

/// `(names)`
pub open spec fn bracketed_names(p: Source, i: int) -> Result<(Seq<Seq<char>>, int), Failure>
    decreases p.lex.len() - i, 39int,
{
    if !sql::is_sym(p, i, "("@) {
        Err(error::failure(906, "missing left parenthesis"@))
    } else {
        let i = i + 1;
        match sql::within(sql::name_list(p, i, Seq::empty()), i + 1, p) {
            Err(e) => Err(e),
            Ok((names, i)) => {
                if !sql::is_sym(p, i, ")"@) {
                    Err(error::failure(907, "missing right parenthesis"@))
                } else {
                    let i = i + 1;
                    Ok((names, i))
                }
            },
        }
    }
}

/// `[UNIQUE] INDEX name ON table (columns)`, behind CREATE.
pub open spec fn create_index(p: Source, i: int) -> Result<(tree::Statement, int), Failure>
    decreases p.lex.len() - i, 40int,
{
    let unique = sql::is_kw(p, i, "UNIQUE"@);
    let i = if unique {
        i + 1
    } else {
        i
    };
    if !sql::is_kw(p, i, "INDEX"@) {
        Err(error::failure(905, "missing keyword"@))
    } else {
        let i = i + 1;
        match sql::within(sql::object_name(p, i), i + 1, p) {
            Err(e) => Err(e),
            Ok((name, i)) => {
                if !sql::is_kw(p, i, "ON"@) {
                    Err(error::failure(905, "missing keyword"@))
                } else {
                    let i = i + 1;
                    match sql::within(sql::object_name(p, i), i + 1, p) {
                        Err(e) => Err(e),
                        Ok((table, i)) => {
                            match sql::within(bracketed_names(p, i), i + 1, p) {
                                Err(e) => Err(e),
                                Ok((columns, i)) => {
                                    Ok((tree::Statement::CreateIndex { name, table, columns, unique }, i))
                                },
                            }
                        },
                    }
                }
            },
        }
    }
}

pub open spec fn default_clause_of_column_def(p: Source, i: int) -> Result<(Option<tree::Expr>, int), Failure>
    decreases p.lex.len() - i, 0int,
{
    if !sql::is_kw(p, i, "DEFAULT"@) {
        Ok((None, i))
    } else {
        match sql::within(sql::expr(p, i + 1), i + 2, p) {
            Err(e) => Err(e),
            Ok((v, i)) => {
                Ok((Some(v), i))
            },
        }
    }
}

pub open spec fn column_constraint_name(p: Source, i: int) -> Result<(Option<Seq<char>>, int), Failure>
    decreases p.lex.len() - i, 0int,
{
    if !sql::is_kw(p, i, "CONSTRAINT"@) {
        Ok((None, i))
    } else {
        match sql::within(sql::ident(p, i + 1), i + 2, p) {
            Err(e) => Err(e),
            Ok((v, i)) => {
                Ok((Some(v), i))
            },
        }
    }
}

pub open spec fn column_reference_ref_columns(p: Source, i: int) -> Result<(Seq<Seq<char>>, int), Failure>
    decreases p.lex.len() - i, 40int,
{
    if !sql::is_sym(p, i, "("@) {
        Ok((Seq::empty(), i))
    } else {
        sql::within(bracketed_names(p, i), i + 1, p)
    }
}

impl<'a> Parser<'a> {
    /// A table with its columns and constraints, or one that a query fills, behind CREATE TABLE.
    #[verifier::spinoff_prover]
    #[verifier::rlimit(100)]
    pub(crate) fn create_table(&self, i: usize) -> (r: Result<(CreateTable, usize), OraError>)
        requires
            self.inv(),
            i <= self.tokens@.len(),
        ensures
            match r {
                Ok((v, j)) => create_table(self.source(), i as int) == Ok::<(tree::CreateTable, int), Failure>((ast::create_table_tree(v), j as int)) && i + 1 <= j <= self.tokens@.len(),
                Err(e) => create_table(self.source(), i as int) == Err::<(tree::CreateTable, int), Failure>(e@),
            },
        decreases self.tokens@.len() - i, 45int,
    {
        let (name, i) = self.object_name(i)?;
        if self.is_kw(i, 0, "AS") {
            let (q, i) = self.query(i + 1)?;
            return Ok((table_filled_from(name, q), i));
        }
        if !self.is_sym(i, 0, "(") {
            return Err(OraError::new(906, "missing left parenthesis"));
        }
        let i: usize = i + 1;
        let (parts, i) = self.table_parts(i, ast::no_column_defs(), ast::no_table_constraints())?;
        if !self.is_sym(i, 0, ")") {
            return Err(OraError::new(907, "missing right parenthesis"));
        }
        let i: usize = i + 1;
        Ok((CreateTable { name, columns: parts.0, constraints: parts.1, as_query: None }, i))
    }

    /// Columns and constraints with commas between them.
    #[verifier::spinoff_prover]
    #[verifier::rlimit(100)]
    #[verifier::loop_isolation(false)]
    pub(crate) fn table_parts(&self, i: usize, columns: Vec<ColumnDef>, constraints: Vec<TableConstraint>) -> (r: Result<((Vec<ColumnDef>, Vec<TableConstraint>), usize), OraError>)
        requires
            self.inv(),
            i <= self.tokens@.len(),
        ensures
            match r {
                Ok((v, j)) => table_parts(self.source(), i as int, ast::column_defs_tree(columns), ast::table_constraints_tree(constraints)) == Ok::<((Seq<tree::ColumnDef>, Seq<tree::TableConstraint>), int), Failure>(((ast::column_defs_tree(v.0), ast::table_constraints_tree(v.1)), j as int)) && i + 1 <= j <= self.tokens@.len(),
                Err(e) => table_parts(self.source(), i as int, ast::column_defs_tree(columns), ast::table_constraints_tree(constraints)) == Err::<((Seq<tree::ColumnDef>, Seq<tree::TableConstraint>), int), Failure>(e@),
            },
        decreases self.tokens@.len() - i, 44int,
    {
        let mut columns = columns;
        let mut constraints = constraints;
        let mut pos: usize = i;
        let ghost due = table_parts(self.source(), i as int, ast::column_defs_tree(columns), ast::table_constraints_tree(constraints));
        loop
            invariant
                self.inv(),
                i <= pos <= self.tokens@.len(),
                due == table_parts(self.source(), pos as int, ast::column_defs_tree(columns), ast::table_constraints_tree(constraints)),
            decreases self.tokens@.len() - pos,
        {
            let i: usize = pos;
            if self.is_kw(i, 0, "CONSTRAINT") || self.is_kw(i, 0, "PRIMARY") || self.is_kw(i, 0, "UNIQUE") || self.is_kw(i, 0, "CHECK") || self.is_kw(i, 0, "FOREIGN") {
                let (c, i) = self.table_constraint(i)?;
                if !self.is_sym(i, 0, ",") {
                    return Ok(((columns, with_constraint(constraints, c)), i));
                }
                let i: usize = i + 1;
                let ghost before = constraints;
                let x = c;
                constraints.push(x);
                assert(ast::table_constraints_tree(constraints) =~= ast::table_constraints_tree(before).push(ast::table_constraint_tree(x)));
                pos = i;
                continue;
            }
            let (found, i) = self.column_def(i)?;
            let (rules, i) = self.column_keys(i, constraints, found.name.clone())?;
            if !self.is_sym(i, 0, ",") {
                return Ok(((with_column(columns, found), rules), i));
            }
            let i: usize = i + 1;
            let ghost before = columns;
            let x = found;
            columns.push(x);
            assert(ast::column_defs_tree(columns) =~= ast::column_defs_tree(before).push(ast::column_def_tree(x)));
            constraints = rules;
            pos = i;
        }
    }

    /// `name type [DEFAULT value] [GENERATED .. AS IDENTITY] [NOT NULL]`
    #[verifier::spinoff_prover]
    #[verifier::rlimit(100)]
    pub(crate) fn column_def(&self, i: usize) -> (r: Result<(ColumnDef, usize), OraError>)
        requires
            self.inv(),
            i <= self.tokens@.len(),
        ensures
            match r {
                Ok((v, j)) => column_def(self.source(), i as int) == Ok::<(tree::ColumnDef, int), Failure>((ast::column_def_tree(v), j as int)) && i + 1 <= j <= self.tokens@.len(),
                Err(e) => column_def(self.source(), i as int) == Err::<(tree::ColumnDef, int), Failure>(e@),
            },
        decreases self.tokens@.len() - i, 43int,
    {
        let (name, i) = self.ident(i)?;
        let (sql_type, i) = self.data_type(i)?;
        let (default, i) = self.default_clause_of_column_def(i)?;
        let (identity, i) = self.identity_clause(i)?;
        let (not_null, i) = self.not_null(i)?;
        Ok((ColumnDef { name, sql_type, default, not_null, identity }, i))
    }

    /// `[GENERATED (ALWAYS | BY DEFAULT [ON NULL]) AS IDENTITY]`
    #[verifier::spinoff_prover]
    #[verifier::rlimit(100)]
    pub(crate) fn identity_clause(&self, i: usize) -> (r: Result<(bool, usize), OraError>)
        requires
            self.inv(),
            i <= self.tokens@.len(),
        ensures
            match r {
                Ok((v, j)) => identity_clause(self.source(), i as int) == Ok::<(bool, int), Failure>((v, j as int)) && i <= j <= self.tokens@.len(),
                Err(e) => identity_clause(self.source(), i as int) == Err::<(bool, int), Failure>(e@),
            },
        decreases self.tokens@.len() - i, 3int,
    {
        if !self.is_kw(i, 0, "GENERATED") {
            return Ok((false, i));
        }
        let i: usize = i + 1;
        if self.is_kw(i, 0, "BY") {
            return self.by_default(i + 1);
        }
        if !self.is_kw(i, 0, "ALWAYS") {
            return Err(OraError::new(905, "missing keyword"));
        }
        let i: usize = i + 1;
        self.as_identity(i)
    }

    #[verifier::spinoff_prover]
    #[verifier::rlimit(100)]
    pub(crate) fn by_default(&self, i: usize) -> (r: Result<(bool, usize), OraError>)
        requires
            self.inv(),
            i <= self.tokens@.len(),
        ensures
            match r {
                Ok((v, j)) => by_default(self.source(), i as int) == Ok::<(bool, int), Failure>((v, j as int)) && i + 1 <= j <= self.tokens@.len(),
                Err(e) => by_default(self.source(), i as int) == Err::<(bool, int), Failure>(e@),
            },
        decreases self.tokens@.len() - i, 2int,
    {
        if !self.is_kw(i, 0, "DEFAULT") {
            return Err(OraError::new(905, "missing keyword"));
        }
        let i: usize = i + 1;
        if self.is_kw(i, 0, "ON") && self.is_kw(i, 1, "NULL") {
            return self.as_identity(i + 2);
        }
        self.as_identity(i)
    }

    #[verifier::spinoff_prover]
    #[verifier::rlimit(100)]
    pub(crate) fn as_identity(&self, i: usize) -> (r: Result<(bool, usize), OraError>)
        requires
            self.inv(),
            i <= self.tokens@.len(),
        ensures
            match r {
                Ok((v, j)) => as_identity(self.source(), i as int) == Ok::<(bool, int), Failure>((v, j as int)) && i + 1 <= j <= self.tokens@.len(),
                Err(e) => as_identity(self.source(), i as int) == Err::<(bool, int), Failure>(e@),
            },
        decreases self.tokens@.len() - i, 1int,
    {
        if !self.is_kw(i, 0, "AS") {
            return Err(OraError::new(905, "missing keyword"));
        }
        let i: usize = i + 1;
        if !self.is_kw(i, 0, "IDENTITY") {
            return Err(OraError::new(905, "missing keyword"));
        }
        let i: usize = i + 1;
        Ok((true, i))
    }

    /// Constraints behind a column.
    #[verifier::spinoff_prover]
    #[verifier::rlimit(100)]
    #[verifier::loop_isolation(false)]
    pub(crate) fn column_keys(&self, i: usize, acc: Vec<TableConstraint>, name: String) -> (r: Result<(Vec<TableConstraint>, usize), OraError>)
        requires
            self.inv(),
            i <= self.tokens@.len(),
        ensures
            match r {
                Ok((v, j)) => column_keys(self.source(), i as int, ast::table_constraints_tree(acc), name@) == Ok::<(Seq<tree::TableConstraint>, int), Failure>((ast::table_constraints_tree(v), j as int)) && i <= j <= self.tokens@.len(),
                Err(e) => column_keys(self.source(), i as int, ast::table_constraints_tree(acc), name@) == Err::<(Seq<tree::TableConstraint>, int), Failure>(e@),
            },
        decreases self.tokens@.len() - i, 43int,
    {
        let mut acc = acc;
        let mut pos: usize = i;
        let ghost due = column_keys(self.source(), i as int, ast::table_constraints_tree(acc), name@);
        loop
            invariant
                self.inv(),
                i <= pos <= self.tokens@.len(),
                due == column_keys(self.source(), pos as int, ast::table_constraints_tree(acc), name@),
            decreases self.tokens@.len() - pos,
        {
            let i: usize = pos;
            if !(self.is_kw(i, 0, "CONSTRAINT") || self.is_kw(i, 0, "PRIMARY") || self.is_kw(i, 0, "UNIQUE") || self.is_kw(i, 0, "CHECK") || self.is_kw(i, 0, "REFERENCES")) {
                return Ok((acc, i));
            }
            let (c, i) = self.column_constraint(i, name.clone())?;
            let ghost before = acc;
            let x = c;
            acc.push(x);
            assert(ast::table_constraints_tree(acc) =~= ast::table_constraints_tree(before).push(ast::table_constraint_tree(x)));
            pos = i;
        }
    }

    /// `[CONSTRAINT name] constraint` on one column.
    #[verifier::spinoff_prover]
    #[verifier::rlimit(100)]
    pub(crate) fn column_constraint(&self, i: usize, column: String) -> (r: Result<(TableConstraint, usize), OraError>)
        requires
            self.inv(),
            i <= self.tokens@.len(),
        ensures
            match r {
                Ok((v, j)) => column_constraint(self.source(), i as int, column@) == Ok::<(tree::TableConstraint, int), Failure>((ast::table_constraint_tree(v), j as int)) && i + 1 <= j <= self.tokens@.len(),
                Err(e) => column_constraint(self.source(), i as int, column@) == Err::<(tree::TableConstraint, int), Failure>(e@),
            },
        decreases self.tokens@.len() - i, 42int,
    {
        let (name, i) = self.column_constraint_name(i)?;
        let (kind, i) = self.column_kind(i, column)?;
        Ok((TableConstraint { name, kind }, i))
    }

    #[verifier::spinoff_prover]
    #[verifier::rlimit(100)]
    pub(crate) fn column_kind(&self, i: usize, column: String) -> (r: Result<(ConstraintKind, usize), OraError>)
        requires
            self.inv(),
            i <= self.tokens@.len(),
        ensures
            match r {
                Ok((v, j)) => column_kind(self.source(), i as int, column@) == Ok::<(tree::ConstraintKind, int), Failure>((ast::constraint_kind_tree(v), j as int)) && i + 1 <= j <= self.tokens@.len(),
                Err(e) => column_kind(self.source(), i as int, column@) == Err::<(tree::ConstraintKind, int), Failure>(e@),
            },
        decreases self.tokens@.len() - i, 41int,
    {
        if self.is_kw(i, 0, "PRIMARY") {
            let i: usize = i + 1;
            if !self.is_kw(i, 0, "KEY") {
                return Err(OraError::new(905, "missing keyword"));
            }
            let i: usize = i + 1;
            return Ok((ConstraintKind::PrimaryKey(one_name(&column)), i));
        }
        if self.is_kw(i, 0, "UNIQUE") {
            let i: usize = i + 1;
            return Ok((ConstraintKind::Unique(one_name(&column)), i));
        }
        if self.is_kw(i, 0, "REFERENCES") {
            return self.column_reference(i + 1, column);
        }
        self.check_kind(i)
    }

    /// The column that a column refers to, behind REFERENCES.
    #[verifier::spinoff_prover]
    #[verifier::rlimit(100)]
    pub(crate) fn column_reference(&self, i: usize, column: String) -> (r: Result<(ConstraintKind, usize), OraError>)
        requires
            self.inv(),
            i <= self.tokens@.len(),
        ensures
            match r {
                Ok((v, j)) => column_reference(self.source(), i as int, column@) == Ok::<(tree::ConstraintKind, int), Failure>((ast::constraint_kind_tree(v), j as int)) && i + 1 <= j <= self.tokens@.len(),
                Err(e) => column_reference(self.source(), i as int, column@) == Err::<(tree::ConstraintKind, int), Failure>(e@),
            },
        decreases self.tokens@.len() - i, 40int,
    {
        let (table, i) = self.object_name(i)?;
        let (ref_columns, i) = self.column_reference_ref_columns(i)?;
        Ok((ConstraintKind::ForeignKey { columns: one_name(&column), table, ref_columns }, i))
    }

    /// `CHECK (condition)`
    #[verifier::spinoff_prover]
    #[verifier::rlimit(100)]
    pub(crate) fn check_kind(&self, i: usize) -> (r: Result<(ConstraintKind, usize), OraError>)
        requires
            self.inv(),
            i <= self.tokens@.len(),
        ensures
            match r {
                Ok((v, j)) => check_kind(self.source(), i as int) == Ok::<(tree::ConstraintKind, int), Failure>((ast::constraint_kind_tree(v), j as int)) && i + 1 <= j <= self.tokens@.len(),
                Err(e) => check_kind(self.source(), i as int) == Err::<(tree::ConstraintKind, int), Failure>(e@),
            },
        decreases self.tokens@.len() - i, 40int,
    {
        if !self.is_kw(i, 0, "CHECK") {
            return Err(OraError::new(905, "missing keyword"));
        }
        let i: usize = i + 1;
        if !self.is_sym(i, 0, "(") {
            return Err(OraError::new(906, "missing left parenthesis"));
        }
        let i: usize = i + 1;
        let (e, i) = self.expr(i)?;
        if !self.is_sym(i, 0, ")") {
            return Err(OraError::new(907, "missing right parenthesis"));
        }
        let i: usize = i + 1;
        Ok((ConstraintKind::Check(e), i))
    }

    /// `[CONSTRAINT name] constraint`
    #[verifier::spinoff_prover]
    #[verifier::rlimit(100)]
    pub(crate) fn table_constraint(&self, i: usize) -> (r: Result<(TableConstraint, usize), OraError>)
        requires
            self.inv(),
            i <= self.tokens@.len(),
        ensures
            match r {
                Ok((v, j)) => table_constraint(self.source(), i as int) == Ok::<(tree::TableConstraint, int), Failure>((ast::table_constraint_tree(v), j as int)) && i + 1 <= j <= self.tokens@.len(),
                Err(e) => table_constraint(self.source(), i as int) == Err::<(tree::TableConstraint, int), Failure>(e@),
            },
        decreases self.tokens@.len() - i, 42int,
    {
        let (name, i) = self.column_constraint_name(i)?;
        let (kind, i) = self.constraint_kind(i)?;
        Ok((TableConstraint { name, kind }, i))
    }

    #[verifier::spinoff_prover]
    #[verifier::rlimit(100)]
    pub(crate) fn constraint_kind(&self, i: usize) -> (r: Result<(ConstraintKind, usize), OraError>)
        requires
            self.inv(),
            i <= self.tokens@.len(),
        ensures
            match r {
                Ok((v, j)) => constraint_kind(self.source(), i as int) == Ok::<(tree::ConstraintKind, int), Failure>((ast::constraint_kind_tree(v), j as int)) && i + 1 <= j <= self.tokens@.len(),
                Err(e) => constraint_kind(self.source(), i as int) == Err::<(tree::ConstraintKind, int), Failure>(e@),
            },
        decreases self.tokens@.len() - i, 41int,
    {
        if self.is_kw(i, 0, "PRIMARY") {
            let i: usize = i + 1;
            if !self.is_kw(i, 0, "KEY") {
                return Err(OraError::new(905, "missing keyword"));
            }
            let i: usize = i + 1;
            let (names, i) = self.bracketed_names(i)?;
            return Ok((ConstraintKind::PrimaryKey(names), i));
        }
        if self.is_kw(i, 0, "UNIQUE") {
            let (names, i) = self.bracketed_names(i + 1)?;
            return Ok((ConstraintKind::Unique(names), i));
        }
        if self.is_kw(i, 0, "FOREIGN") {
            return self.foreign_key(i + 1);
        }
        self.check_kind(i)
    }

    /// A foreign key, behind FOREIGN.
    #[verifier::spinoff_prover]
    #[verifier::rlimit(100)]
    pub(crate) fn foreign_key(&self, i: usize) -> (r: Result<(ConstraintKind, usize), OraError>)
        requires
            self.inv(),
            i <= self.tokens@.len(),
        ensures
            match r {
                Ok((v, j)) => foreign_key(self.source(), i as int) == Ok::<(tree::ConstraintKind, int), Failure>((ast::constraint_kind_tree(v), j as int)) && i + 1 <= j <= self.tokens@.len(),
                Err(e) => foreign_key(self.source(), i as int) == Err::<(tree::ConstraintKind, int), Failure>(e@),
            },
        decreases self.tokens@.len() - i, 40int,
    {
        if !self.is_kw(i, 0, "KEY") {
            return Err(OraError::new(905, "missing keyword"));
        }
        let i: usize = i + 1;
        let (columns, i) = self.bracketed_names(i)?;
        if !self.is_kw(i, 0, "REFERENCES") {
            return Err(OraError::new(905, "missing keyword"));
        }
        let i: usize = i + 1;
        let (table, i) = self.object_name(i)?;
        let (ref_columns, i) = self.column_reference_ref_columns(i)?;
        Ok((ConstraintKind::ForeignKey { columns, table, ref_columns }, i))
    }

    /// `(names)`
    #[verifier::spinoff_prover]
    #[verifier::rlimit(100)]
    pub(crate) fn bracketed_names(&self, i: usize) -> (r: Result<(Vec<String>, usize), OraError>)
        requires
            self.inv(),
            i <= self.tokens@.len(),
        ensures
            match r {
                Ok((v, j)) => bracketed_names(self.source(), i as int) == Ok::<(Seq<Seq<char>>, int), Failure>((ast::texts_tree(v), j as int)) && i + 1 <= j <= self.tokens@.len(),
                Err(e) => bracketed_names(self.source(), i as int) == Err::<(Seq<Seq<char>>, int), Failure>(e@),
            },
        decreases self.tokens@.len() - i, 39int,
    {
        if !self.is_sym(i, 0, "(") {
            return Err(OraError::new(906, "missing left parenthesis"));
        }
        let i: usize = i + 1;
        let (names, i) = self.name_list(i, ast::no_texts())?;
        if !self.is_sym(i, 0, ")") {
            return Err(OraError::new(907, "missing right parenthesis"));
        }
        let i: usize = i + 1;
        Ok((names, i))
    }

    /// `[UNIQUE] INDEX name ON table (columns)`, behind CREATE.
    #[verifier::spinoff_prover]
    #[verifier::rlimit(100)]
    pub(crate) fn create_index(&self, i: usize) -> (r: Result<(Statement, usize), OraError>)
        requires
            self.inv(),
            i <= self.tokens@.len(),
        ensures
            match r {
                Ok((v, j)) => create_index(self.source(), i as int) == Ok::<(tree::Statement, int), Failure>((ast::statement_tree(v), j as int)) && i + 1 <= j <= self.tokens@.len(),
                Err(e) => create_index(self.source(), i as int) == Err::<(tree::Statement, int), Failure>(e@),
            },
        decreases self.tokens@.len() - i, 40int,
    {
        let unique = self.is_kw(i, 0, "UNIQUE");
        let i: usize = if unique {
            i + 1
        } else {
            i
        };
        if !self.is_kw(i, 0, "INDEX") {
            return Err(OraError::new(905, "missing keyword"));
        }
        let i: usize = i + 1;
        let (name, i) = self.object_name(i)?;
        if !self.is_kw(i, 0, "ON") {
            return Err(OraError::new(905, "missing keyword"));
        }
        let i: usize = i + 1;
        let (table, i) = self.object_name(i)?;
        let (columns, i) = self.bracketed_names(i)?;
        Ok((Statement::CreateIndex { name, table, columns, unique }, i))
    }

    #[verifier::spinoff_prover]
    #[verifier::rlimit(100)]
    pub(crate) fn default_clause_of_column_def(&self, i: usize) -> (r: Result<(Option<Expr>, usize), OraError>)
        requires
            self.inv(),
            i <= self.tokens@.len(),
        ensures
            match r {
                Ok((v, j)) => default_clause_of_column_def(self.source(), i as int) == Ok::<(Option<tree::Expr>, int), Failure>((ast::opt_expr_tree(v), j as int)) && i <= j <= self.tokens@.len(),
                Err(e) => default_clause_of_column_def(self.source(), i as int) == Err::<(Option<tree::Expr>, int), Failure>(e@),
            },
        decreases self.tokens@.len() - i, 0int,
    {
        if !self.is_kw(i, 0, "DEFAULT") {
            return Ok((None, i));
        }
        let (v, i) = self.expr(i + 1)?;
        Ok((Some(v), i))
    }

    #[verifier::spinoff_prover]
    #[verifier::rlimit(100)]
    pub(crate) fn column_constraint_name(&self, i: usize) -> (r: Result<(Option<String>, usize), OraError>)
        requires
            self.inv(),
            i <= self.tokens@.len(),
        ensures
            match r {
                Ok((v, j)) => column_constraint_name(self.source(), i as int) == Ok::<(Option<Seq<char>>, int), Failure>((ast::opt_text_tree(v), j as int)) && i <= j <= self.tokens@.len(),
                Err(e) => column_constraint_name(self.source(), i as int) == Err::<(Option<Seq<char>>, int), Failure>(e@),
            },
        decreases self.tokens@.len() - i, 0int,
    {
        if !self.is_kw(i, 0, "CONSTRAINT") {
            return Ok((None, i));
        }
        let (v, i) = self.ident(i + 1)?;
        Ok((Some(v), i))
    }

    #[verifier::spinoff_prover]
    #[verifier::rlimit(100)]
    pub(crate) fn column_reference_ref_columns(&self, i: usize) -> (r: Result<(Vec<String>, usize), OraError>)
        requires
            self.inv(),
            i <= self.tokens@.len(),
        ensures
            match r {
                Ok((v, j)) => column_reference_ref_columns(self.source(), i as int) == Ok::<(Seq<Seq<char>>, int), Failure>((ast::texts_tree(v), j as int)) && i <= j <= self.tokens@.len(),
                Err(e) => column_reference_ref_columns(self.source(), i as int) == Err::<(Seq<Seq<char>>, int), Failure>(e@),
            },
        decreases self.tokens@.len() - i, 40int,
    {
        if !self.is_sym(i, 0, "(") {
            return Ok((ast::no_texts(), i));
        }
        self.bracketed_names(i)
    }
}

} // verus!
