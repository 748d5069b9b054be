//! Evaluates expressions and queries.

use vstd::prelude::*;
use vstd::string::*;
use vstd::utf8::*;

use crate::ast;
use crate::ast::{BinaryOp, Expr};
use crate::catalog;
use crate::catalog::{Field, TableColumn};
use crate::env::{Env, Setting};
use crate::error;
use crate::error::{Failure, OraError};
use crate::functions;
use crate::functions::{Due, Reply};
use crate::number;
use crate::number::{Dec, Number};
use crate::parser;
use crate::plsql::vars;
use crate::plsql::vars::{Vars, Visible};
use crate::text;
use crate::tree;
use crate::value;
use crate::value::{Datum, Relation, Value};

verus! {

/// Stands for a result that floating point arithmetic leaves open.
pub open spec fn free() -> Failure {
    Failure { code: -1, message: Seq::empty() }
}

/// Whether a result is the one that was due, where one was.
pub open spec fn tells(due: Due, r: Result<Value, OraError>) -> bool {
    due == Err::<Datum, Failure>(free()) || functions::gives(due, r)
}

/// The row that column names speak of.
pub struct RowScope {
    pub qualifier: Seq<char>,
    pub columns: Seq<Field>,
    pub values: Seq<Datum>,
    pub rownum: int,
}

/// What an expression can see.
pub struct Scene {
    pub binds: Seq<Datum>,
    pub env: Setting,
    pub vars: Option<Visible>,
    pub row: Option<RowScope>,
}

pub open spec fn quoted_name(table: Option<Seq<char>>, name: Seq<char>) -> Seq<char> {
    match table {
        Some(t) => seq!['"'] + t + seq!['"', '.', '"'] + name + seq!['"'],
        None => seq!['"'] + name + seq!['"'],
    }
}

/// The names that stand for a value without brackets.
pub open spec fn is_constant(name: Seq<char>) -> bool {
    name == "SYSDATE"@ || name == "SYSTIMESTAMP"@ || name == "CURRENT_DATE"@ || name
        == "CURRENT_TIMESTAMP"@ || name == "LOCALTIMESTAMP"@ || name == "USER"@
}

pub open spec fn reply_due(r: Reply) -> Due {
    match r {
        Reply::Exactly(due) => due,
        Reply::Floating => Err(free()),
    }
}

/// The value of a row's column.
pub open spec fn row_value(row: Option<RowScope>, table: Option<Seq<char>>, name: Seq<char>) -> Option<
    Datum,
> {
    match row {
        Some(r) => if table is None || table == Some(r.qualifier) {
            match catalog::index_of_field(r.columns, name, 0) {
                Some(i) => Some(r.values[i]),
                None => None,
            }
        } else {
            None
        },
        None => None,
    }
}

/// What a name stands for: a column of the row, then a variable of the block, then a
/// function without arguments.
pub open spec fn column_value(s: Scene, table: Option<Seq<char>>, name: Seq<char>) -> Due {
    match row_value(s.row, table, name) {
        Some(v) => Ok(v),
        None => {
            let var = match s.vars {
                Some(v) => v.lookup(table, name),
                None => None,
            };
            match var {
                Some(v) => Ok(v),
                None => if table is None && is_constant(name) {
                    reply_due(functions::called(s.env, name, Seq::empty()))
                } else {
                    Err(error::invalid_identifier(quoted_name(table, name)))
                },
            }
        },
    }
}

/// A value as a condition.
pub open spec fn truth(v: Due) -> Result<Option<bool>, Failure> {
    match v {
        Err(e) => Err(e),
        Ok(Datum::Boolean(b)) => Ok(Some(b)),
        Ok(Datum::Null) => Ok(None),
        Ok(_) => Err(error::failure(920, "invalid relational operator"@)),
    }
}

pub open spec fn truth_datum(t: Result<Option<bool>, Failure>) -> Due {
    match t {
        Err(e) => Err(e),
        Ok(b) => Ok(vars::truth_value(b)),
    }
}

pub open spec fn both(a: Option<bool>, b: Option<bool>) -> Option<bool> {
    if a == Some(false) || b == Some(false) {
        Some(false)
    } else if a == Some(true) && b == Some(true) {
        Some(true)
    } else {
        None
    }
}

pub open spec fn either(a: Option<bool>, b: Option<bool>) -> Option<bool> {
    if a == Some(true) || b == Some(true) {
        Some(true)
    } else if a == Some(false) && b == Some(false) {
        Some(false)
    } else {
        None
    }
}

pub open spec fn negation(a: Option<bool>) -> Option<bool> {
    match a {
        Some(b) => Some(!b),
        None => None,
    }
}

/// Whether a comparison holds of how two values stand to each other.
pub open spec fn holds(op: BinaryOp, r: Option<Relation>) -> Option<bool> {
    match r {
        None => None,
        Some(r) => match op {
            BinaryOp::Eq => Some(r == Relation::Equal),
            BinaryOp::NotEq => Some(r != Relation::Equal),
            BinaryOp::Lt => Some(r == Relation::Less),
            BinaryOp::LtEq => Some(r != Relation::Greater),
            BinaryOp::Gt => Some(r == Relation::Greater),
            BinaryOp::GtEq => Some(r != Relation::Less),
            _ => None,
        },
    }
}

pub open spec fn compared(env: Setting, op: BinaryOp, a: Datum, b: Datum) -> Result<
    Option<bool>,
    Failure,
> {
    match value::relation(a, b, env.date_format, env.year()) {
        Err(e) => Err(e),
        Ok(r) => Ok(holds(op, r)),
    }
}

/// What arithmetic gives. A quotient keeps 40 digits.
pub open spec fn computed(op: BinaryOp, a: Dec, b: Dec) -> Result<Dec, Failure> {
    match op {
        BinaryOp::Add => functions::in_range(number::sum(a, b)),
        BinaryOp::Sub => functions::in_range(number::difference(a, b)),
        BinaryOp::Mul => functions::in_range(number::product(a, b)),
        _ => if b.int_val == 0 {
            Err(functions::zero_divisor())
        } else {
            match functions::in_range(number::quotient(a, b)) {
                Err(e) => Err(e),
                Ok(q) => functions::in_range(number::precise(q)),
            }
        },
    }
}

pub open spec fn text_or_empty(env: Setting, v: Datum) -> Seq<char> {
    match env.text_of(v) {
        Some(s) => s,
        None => Seq::empty(),
    }
}

/// What an operator makes of two values.
pub open spec fn combined(env: Setting, op: BinaryOp, a: Datum, b: Datum) -> Due {
    match op {
        BinaryOp::Concat => Ok(value::varchar(text_or_empty(env, a) + text_or_empty(env, b))),
        BinaryOp::Add | BinaryOp::Sub | BinaryOp::Mul | BinaryOp::Div => match value::as_number(a) {
            Err(e) => Err(e),
            Ok(x) => match value::as_number(b) {
                Err(e) => Err(e),
                Ok(y) => if x is None || y is None {
                    Ok(Datum::Null)
                } else {
                    functions::numeric(computed(op, x->0, y->0))
                },
            },
        },
        _ => truth_datum(compared(env, op, a, b)),
    }
}

pub open spec fn negated_value(v: Datum) -> Due {
    match value::as_number(v) {
        Err(e) => Err(e),
        Ok(None) => Ok(Datum::Null),
        Ok(Some(n)) => Ok(Datum::Number(number::negated(n))),
    }
}

/// Whether a value lies between two others.
pub open spec fn between(env: Setting, v: Datum, low: Datum, high: Datum, negated: bool) -> Due {
    match compared(env, BinaryOp::GtEq, v, low) {
        Err(e) => Err(e),
        Ok(a) => match compared(env, BinaryOp::LtEq, v, high) {
            Err(e) => Err(e),
            Ok(b) => {
                let t = both(a, b);
                Ok(
                    vars::truth_value(
                        if negated {
                            negation(t)
                        } else {
                            t
                        },
                    ),
                )
            },
        },
    }
}

/// The value of an expression.
#[verifier::opaque]
pub open spec fn evaluated(s: Scene, e: tree::Expr) -> Due
    decreases e, 0int,
{
    match e {
        tree::Expr::Literal(v) => Ok(v),
        tree::Expr::Bind(i) => if 0 <= i < s.binds.len() {
            Ok(s.binds[i])
        } else {
            Err(error::failure(1008, "not all variables bound"@))
        },
        tree::Expr::Column { table, name } => column_value(s, table, name),
        tree::Expr::Neg(a) => match evaluated(s, *a) {
            Err(e) => Err(e),
            Ok(v) => negated_value(v),
        },
        tree::Expr::Not(a) => match truth(evaluated(s, *a)) {
            Err(e) => Err(e),
            Ok(t) => Ok(vars::truth_value(negation(t))),
        },
        tree::Expr::Binary(op, a, b) => match op {
            BinaryOp::And => match truth(evaluated(s, *a)) {
                Err(e) => Err(e),
                Ok(x) => if x == Some(false) {
                    Ok(Datum::Boolean(false))
                } else {
                    match truth(evaluated(s, *b)) {
                        Err(e) => Err(e),
                        Ok(y) => Ok(vars::truth_value(both(x, y))),
                    }
                },
            },
            BinaryOp::Or => match truth(evaluated(s, *a)) {
                Err(e) => Err(e),
                Ok(x) => if x == Some(true) {
                    Ok(Datum::Boolean(true))
                } else {
                    match truth(evaluated(s, *b)) {
                        Err(e) => Err(e),
                        Ok(y) => Ok(vars::truth_value(either(x, y))),
                    }
                },
            },
            _ => match evaluated(s, *a) {
                Err(e) => Err(e),
                Ok(x) => match evaluated(s, *b) {
                    Err(e) => Err(e),
                    Ok(y) => combined(s.env, op, x, y),
                },
            },
        },
        tree::Expr::IsNull { expr, negated } => match evaluated(s, *expr) {
            Err(e) => Err(e),
            Ok(v) => Ok(Datum::Boolean((v is Null) != negated)),
        },
        tree::Expr::Between { expr, low, high, negated } => match evaluated(s, *expr) {
            Err(e) => Err(e),
            Ok(v) => match evaluated(s, *low) {
                Err(e) => Err(e),
                Ok(l) => match evaluated(s, *high) {
                    Err(e) => Err(e),
                    Ok(h) => between(s.env, v, l, h, negated),
                },
            },
        },
        tree::Expr::InList { expr, list, negated } => match evaluated(s, *expr) {
            Err(e) => Err(e),
            Ok(v) => match among(s, v, list, 0) {
                Err(e) => Err(e),
                Ok(t) => Ok(
                    vars::truth_value(
                        if negated {
                            negation(t)
                        } else {
                            t
                        },
                    ),
                ),
            },
        },
        tree::Expr::Case { operand, whens, else_ } => match operand {
            Some(o) => match evaluated(s, *o) {
                Err(e) => Err(e),
                Ok(v) => match chosen(s, Some(v), whens, 0) {
                    Some(due) => due,
                    None => match else_ {
                        Some(x) => evaluated(s, *x),
                        None => Ok(Datum::Null),
                    },
                },
            },
            None => match chosen(s, None, whens, 0) {
                Some(due) => due,
                None => match else_ {
                    Some(x) => evaluated(s, *x),
                    None => Ok(Datum::Null),
                },
            },
        },
        tree::Expr::Function { name, args, distinct } => if distinct {
            Err(parser::unsupported("aggregates"@))
        } else {
            match evaluated_upto(s, args, args.len() as int) {
                Err(e) => Err(e),
                Ok(a) => reply_due(functions::called(s.env, name, a)),
            }
        },
        tree::Expr::RowNum => match s.row {
            Some(r) => Ok(vars::integer_value(r.rownum)),
            None => Err(
                error::failure(976, "Specified pseudocolumn or operator is not allowed here"@),
            ),
        },
        tree::Expr::Like { .. } => Err(parser::unsupported("LIKE"@)),
        tree::Expr::CountStar => Err(parser::unsupported("aggregates"@)),
        _ => Err(parser::unsupported("subqueries"@)),
    }
}

/// The values of the first `n` expressions.
#[verifier::opaque]
pub open spec fn evaluated_upto(s: Scene, es: Seq<tree::Expr>, n: int) -> Result<
    Seq<Datum>,
    Failure,
>
    decreases es, n,
{
    if n <= 0 || n > es.len() {
        Ok(Seq::empty())
    } else {
        match evaluated_upto(s, es, n - 1) {
            Err(e) => Err(e),
            Ok(a) => match evaluated(s, es[n - 1]) {
                Err(e) => Err(e),
                Ok(v) => Ok(a.push(v)),
            },
        }
    }
}

/// Whether a value is one of those from `i` on.
#[verifier::opaque]
pub open spec fn among(s: Scene, v: Datum, es: Seq<tree::Expr>, i: int) -> Result<
    Option<bool>,
    Failure,
>
    decreases es, es.len() - i,
{
    if i < 0 || i >= es.len() {
        Ok(Some(false))
    } else {
        match evaluated(s, es[i]) {
            Err(e) => Err(e),
            Ok(x) => match compared(s.env, BinaryOp::Eq, v, x) {
                Err(e) => Err(e),
                Ok(t) => if t == Some(true) {
                    Ok(Some(true))
                } else {
                    match among(s, v, es, i + 1) {
                        Err(e) => Err(e),
                        Ok(rest) => Ok(either(t, rest)),
                    }
                },
            },
        }
    }
}

/// The result of the first case from `i` on that applies, if one does.
#[verifier::opaque]
pub open spec fn chosen(
    s: Scene,
    subject: Option<Datum>,
    whens: Seq<(tree::Expr, tree::Expr)>,
    i: int,
) -> Option<Due>
    decreases whens, whens.len() - i,
{
    if i < 0 || i >= whens.len() {
        None
    } else {
        let hit = match subject {
            Some(v) => match evaluated(s, whens[i].0) {
                Err(e) => Err(e),
                Ok(w) => compared(s.env, BinaryOp::Eq, v, w),
            },
            None => truth(evaluated(s, whens[i].0)),
        };
        match hit {
            Err(e) => Some(Err(e)),
            Ok(t) => if t == Some(true) {
                Some(evaluated(s, whens[i].1))
            } else {
                chosen(s, subject, whens, i + 1)
            },
        }
    }
}

/// What CASE gives when no case applies.
pub open spec fn else_due(s: Scene, e: Option<Box<tree::Expr>>) -> Due {
    match e {
        Some(x) => evaluated(s, *x),
        None => Ok(Datum::Null),
    }
}

proof fn case_tree(e: Expr)
    requires
        e is Case,
    ensures
        e@ == (tree::Expr::Case {
            operand: ast::opt_boxed_expr_tree(e->Case_operand),
            whens: ast::expr_exprs_tree(e->Case_whens),
            else_: ast::opt_boxed_expr_tree(e->Case_else_),
        }),
{
}

/// The row that column names speak of.
pub struct Scope<'a> {
    pub qualifier: &'a str,
    pub columns: &'a Vec<TableColumn>,
    pub values: &'a Vec<Value>,
    pub rownum: i64,
}

impl<'a> View for Scope<'a> {
    type V = RowScope;

    open spec fn view(&self) -> RowScope {
        RowScope {
            qualifier: self.qualifier@,
            columns: catalog::fields(self.columns@),
            values: functions::views(self.values@),
            rownum: self.rownum as int,
        }
    }
}

/// What an expression can see.
pub struct Ex<'a> {
    pub binds: &'a Vec<Value>,
    pub env: &'a Env,
    pub vars: Option<&'a Vars<'a>>,
    pub row: Option<Scope<'a>>,
}

impl<'a> View for Ex<'a> {
    type V = Scene;

    open spec fn view(&self) -> Scene {
        Scene {
            binds: functions::views(self.binds@),
            env: self.env@,
            vars: match self.vars {
                Some(v) => Some(v@),
                None => None,
            },
            row: match self.row {
                Some(r) => Some(r@),
                None => None,
            },
        }
    }
}

/// Whether a condition came out as it was due, where it was.
pub open spec fn decides(due: Result<Option<bool>, Failure>, r: Result<Option<bool>, OraError>) -> bool {
    due == Err::<Option<bool>, Failure>(free()) || match r {
        Ok(t) => due == Ok::<Option<bool>, Failure>(t),
        Err(e) => due == Err::<Option<bool>, Failure>(e@),
    }
}

fn constant_named(name: &str) -> (r: bool)
    ensures
        r == is_constant(name@),
{
    text::same(name, "SYSDATE") || text::same(name, "SYSTIMESTAMP") || text::same(
        name,
        "CURRENT_DATE",
    ) || text::same(name, "CURRENT_TIMESTAMP") || text::same(name, "LOCALTIMESTAMP") || text::same(
        name,
        "USER",
    )
}

fn name_in_quotes(table: &Option<String>, name: &str) -> (s: String)
    ensures
        s@ == quoted_name(ast::opt_text_tree(*table), name@),
{
    let mut s = String::new();
    s.push('"');
    match table {
        Some(t) => {
            s.append(t);
            s.push('"');
            s.push('.');
            s.push('"');
        },
        None => {},
    }
    s.append(name);
    s.push('"');
    assert(s@ =~= quoted_name(ast::opt_text_tree(*table), name@));
    s
}

/// A value as a condition.
pub fn truth_of(v: Result<Value, OraError>) -> (r: Result<Option<bool>, OraError>)
    ensures
        forall|due: Due| #[trigger] tells(due, v) ==> decides(truth(due), r),
{
    match v {
        Err(e) => Err(e),
        Ok(Value::Boolean(b)) => Ok(Some(b)),
        Ok(Value::Null) => Ok(None),
        Ok(_) => Err(OraError::new(920, "invalid relational operator")),
    }
}

pub fn and3(a: Option<bool>, b: Option<bool>) -> (r: Option<bool>)
    ensures
        r == both(a, b),
{
    match (a, b) {
        (Some(false), _) => Some(false),
        (_, Some(false)) => Some(false),
        (Some(true), Some(true)) => Some(true),
        _ => None,
    }
}

pub fn or3(a: Option<bool>, b: Option<bool>) -> (r: Option<bool>)
    ensures
        r == either(a, b),
{
    match (a, b) {
        (Some(true), _) => Some(true),
        (_, Some(true)) => Some(true),
        (Some(false), Some(false)) => Some(false),
        _ => None,
    }
}

pub fn not3(a: Option<bool>) -> (r: Option<bool>)
    ensures
        r == negation(a),
{
    match a {
        Some(b) => Some(!b),
        None => None,
    }
}

fn relation_holds(op: BinaryOp, r: Option<Relation>) -> (t: Option<bool>)
    ensures
        t == holds(op, r),
{
    match r {
        None => None,
        Some(r) => match op {
            BinaryOp::Eq => Some(r == Relation::Equal),
            BinaryOp::NotEq => Some(r != Relation::Equal),
            BinaryOp::Lt => Some(r == Relation::Less),
            BinaryOp::LtEq => Some(r != Relation::Greater),
            BinaryOp::Gt => Some(r == Relation::Greater),
            BinaryOp::GtEq => Some(r != Relation::Less),
            _ => None,
        },
    }
}

/// Whether a comparison holds of two values.
pub fn compare_as(env: &Env, op: BinaryOp, a: &Value, b: &Value) -> (r: Result<
    Option<bool>,
    OraError,
>)
    ensures
        match r {
            Ok(t) => compared(env@, op, a@, b@) == Ok::<Option<bool>, Failure>(t),
            Err(e) => error::failed(compared(env@, op, a@, b@), e),
        },
{
    match value::compare(a, b, &env.nls_date_format, env.year()) {
        Ok(r) => Ok(relation_holds(op, r)),
        Err(e) => Err(e),
    }
}

fn compute(op: BinaryOp, a: &Number, b: &Number) -> (r: Result<Number, OraError>)
    ensures
        functions::gives_number(computed(op, a@, b@), r),
{
    match op {
        BinaryOp::Add => functions::settled(a.plus(b)),
        BinaryOp::Sub => functions::settled(a.minus(b)),
        BinaryOp::Mul => functions::settled(a.times(b)),
        _ => {
            if b.sign() == 0 {
                return Err(OraError::new(1476, "divisor is equal to zero"));
            }
            match a.over(b) {
                Some(q) => functions::settled(q.precise()),
                None => Err(functions::numeric_overflow()),
            }
        },
    }
}

/// What an operator makes of two values.
fn combine(env: &Env, op: BinaryOp, a: &Value, b: &Value) -> (r: Result<Value, OraError>)
    ensures
        functions::gives(combined(env@, op, a@, b@), r),
{
    match op {
        BinaryOp::Concat => {
            let mut s = String::new();
            match env.to_text(a) {
                Some(t) => {
                    s.append(&t);
                },
                None => {},
            }
            match env.to_text(b) {
                Some(t) => {
                    s.append(&t);
                },
                None => {},
            }
            assert(s@ =~= text_or_empty(env@, a@) + text_or_empty(env@, b@));
            Ok(Value::varchar(&s))
        },
        BinaryOp::Add | BinaryOp::Sub | BinaryOp::Mul | BinaryOp::Div => {
            let x = a.to_number()?;
            let y = b.to_number()?;
            match (x, y) {
                (Some(x), Some(y)) => match compute(op, &x, &y) {
                    Ok(n) => Ok(Value::Number(n)),
                    Err(e) => Err(e),
                },
                _ => Ok(Value::Null),
            }
        },
        _ => match compare_as(env, op, a, b) {
            Ok(t) => Ok(vars::bool_value(t)),
            Err(e) => Err(e),
        },
    }
}

impl<'a> Ex<'a> {
    pub open spec fn wf(&self) -> bool {
        self.row matches Some(r) ==> r.columns@.len() == r.values@.len()
    }

    /// What a name stands for.
    fn column(&self, table: &Option<String>, name: &str) -> (r: Result<Value, OraError>)
        requires
            self.wf(),
        ensures
            tells(column_value(self@, ast::opt_text_tree(*table), name@), r),
    {
        match &self.row {
            Some(row) => {
                let mine = match table {
                    Some(t) => text::same(t, row.qualifier),
                    None => true,
                };
                if mine {
                    match field_index(row.columns, name) {
                        Some(i) => {
                            return Ok(row.values[i].clone());
                        },
                        None => {},
                    }
                }
            },
            None => {},
        }
        match self.vars {
            Some(v) => {
                let qualifier = match table {
                    Some(t) => Some(t.as_str()),
                    None => None,
                };
                match v.lookup(qualifier, name) {
                    Some(v) => {
                        return Ok(v);
                    },
                    None => {},
                }
            },
            None => {},
        }
        if table.is_none() && constant_named(name) {
            let none: Vec<Value> = Vec::new();
            assert(functions::views(none@) =~= Seq::empty());
            return functions::call(self.env, name, &none);
        }
        Err(OraError::invalid_identifier(&name_in_quotes(table, name)))
    }

    /// Evaluates a condition.
    pub fn eval_bool(&self, e: &Expr) -> (r: Result<Option<bool>, OraError>)
        requires
            self.wf(),
        ensures
            decides(truth(evaluated(self@, e@)), r),
        decreases e, 3int,
    {
        let v = self.eval(e);
        truth_of(v)
    }

    /// Evaluates an expression.
    #[verifier::spinoff_prover]
    #[verifier::rlimit(20)]
    pub fn eval(&self, e: &Expr) -> (r: Result<Value, OraError>)
        requires
            self.wf(),
        ensures
            tells(evaluated(self@, e@), r),
        decreases e, 2int,
    {
        proof {
            reveal(evaluated);
            reveal(evaluated_upto);
            reveal(among);
            reveal(chosen);
        }
        match e {
            Expr::Literal(v) => Ok(v.clone()),
            Expr::Bind(i) => if *i < self.binds.len() {
                Ok(self.binds[*i].clone())
            } else {
                Err(OraError::new(1008, "not all variables bound"))
            },
            Expr::Column { table, name } => self.column(table, name),
            Expr::Neg(a) => {
                let v = self.eval(a)?;
                match v.to_number()? {
                    Some(n) => Ok(Value::Number(n.negate())),
                    None => Ok(Value::Null),
                }
            },
            Expr::Not(a) => {
                let t = truth_of(self.eval(a))?;
                Ok(vars::bool_value(not3(t)))
            },
            Expr::Binary(..) => self.eval_binary(e),
            Expr::IsNull { .. } => self.eval_test(e),
            Expr::Between { .. } => self.eval_test(e),
            Expr::InList { .. } => self.eval_test(e),
            Expr::Case { .. } => self.eval_case(e),
            Expr::Function { .. } => self.eval_call(e),
            Expr::RowNum => match &self.row {
                Some(r) => Ok(Value::number(r.rownum)),
                None => Err(
                    OraError::new(
                        976,
                        "Specified pseudocolumn or operator is not allowed here",
                    ),
                ),
            },
            Expr::Like { .. } => Err(parser::unsupported_error("LIKE")),
            Expr::CountStar => Err(parser::unsupported_error("aggregates")),
            _ => Err(parser::unsupported_error("subqueries")),
        }
    }

    /// Evaluates an operator.
    #[verifier::spinoff_prover]
    #[verifier::rlimit(20)]
    fn eval_binary(&self, e: &Expr) -> (r: Result<Value, OraError>)
        requires
            self.wf(),
            e is Binary,
        ensures
            tells(evaluated(self@, e@), r),
        decreases e, 1int,
    {
        proof {
            reveal(evaluated);
            reveal(evaluated_upto);
            reveal(among);
            reveal(chosen);
        }
        match e {
            Expr::Binary(op, a, b) => match op {
                BinaryOp::And => {
                    let x = truth_of(self.eval(a))?;
                    if let Some(false) = x {
                        return Ok(Value::Boolean(false));
                    }
                    let y = truth_of(self.eval(b))?;
                    Ok(vars::bool_value(and3(x, y)))
                },
                BinaryOp::Or => {
                    let x = truth_of(self.eval(a))?;
                    if let Some(true) = x {
                        return Ok(Value::Boolean(true));
                    }
                    let y = truth_of(self.eval(b))?;
                    Ok(vars::bool_value(or3(x, y)))
                },
                _ => {
                    let x = self.eval(a)?;
                    let y = self.eval(b)?;
                    combine(self.env, *op, &x, &y)
                },
            },
            _ => Ok(Value::Null),
        }
    }

    /// Evaluates IS NULL, BETWEEN or IN.
    #[verifier::spinoff_prover]
    #[verifier::rlimit(20)]
    fn eval_test(&self, e: &Expr) -> (r: Result<Value, OraError>)
        requires
            self.wf(),
            e is IsNull || e is Between || e is InList,
        ensures
            tells(evaluated(self@, e@), r),
        decreases e, 1int,
    {
        proof {
            reveal(evaluated);
            reveal(evaluated_upto);
            reveal(among);
            reveal(chosen);
        }
        match e {
            Expr::IsNull { expr, negated } => {
                let v = self.eval(expr)?;
                Ok(Value::Boolean(v.is_null() != *negated))
            },
            Expr::Between { expr, low, high, negated } => {
                let v = self.eval(expr)?;
                let l = self.eval(low)?;
                let h = self.eval(high)?;
                let a = compare_as(self.env, BinaryOp::GtEq, &v, &l)?;
                let b = compare_as(self.env, BinaryOp::LtEq, &v, &h)?;
                let t = and3(a, b);
                Ok(
                    vars::bool_value(
                        if *negated {
                            not3(t)
                        } else {
                            t
                        },
                    ),
                )
            },
            Expr::InList { expr, list, negated } => {
                let v = self.eval(expr)?;
                let t = self.among(&v, list, 0)?;
                Ok(
                    vars::bool_value(
                        if *negated {
                            not3(t)
                        } else {
                            t
                        },
                    ),
                )
            },
            _ => Ok(Value::Null),
        }
    }

    /// Evaluates CASE.
    #[verifier::spinoff_prover]
    #[verifier::rlimit(20)]
    fn eval_case(&self, e: &Expr) -> (r: Result<Value, OraError>)
        requires
            self.wf(),
            e is Case,
        ensures
            tells(evaluated(self@, e@), r),
        decreases e, 1int,
    {
        proof {
            reveal(evaluated);
            reveal(evaluated_upto);
            reveal(among);
            reveal(chosen);
        }
        match e {
            Expr::Case { operand, whens, else_ } => {
                proof {
                    case_tree(*e);
                }
                let subject = match operand {
                    Some(o) => match self.eval(o) {
                        Ok(v) => Some(v),
                        Err(x) => {
                            return Err(x);
                        },
                    },
                    None => None,
                };
                match self.choose_case(&subject, whens, 0) {
                    Some(r) => r,
                    None => self.eval_else(else_),
                }
            },
            _ => Ok(Value::Null),
        }
    }

    fn eval_else(&self, e: &Option<Box<Expr>>) -> (r: Result<Value, OraError>)
        requires
            self.wf(),
        ensures
            tells(else_due(self@, ast::opt_boxed_expr_tree(*e)), r),
        decreases e, 0int,
    {
        proof {
            reveal(evaluated);
            reveal(evaluated_upto);
            reveal(among);
            reveal(chosen);
        }
        match e {
            Some(x) => self.eval(x),
            None => Ok(Value::Null),
        }
    }

    /// Evaluates a call of a function.
    #[verifier::spinoff_prover]
    #[verifier::rlimit(20)]
    fn eval_call(&self, e: &Expr) -> (r: Result<Value, OraError>)
        requires
            self.wf(),
            e is Function,
        ensures
            tells(evaluated(self@, e@), r),
        decreases e, 1int,
    {
        proof {
            reveal(evaluated);
            reveal(evaluated_upto);
            reveal(among);
            reveal(chosen);
        }
        match e {
            Expr::Function { name, args, distinct } => {
                if *distinct {
                    return Err(parser::unsupported_error("aggregates"));
                }
                let a = self.eval_all(args)?;
                functions::call(self.env, name, &a)
            },
            _ => Ok(Value::Null),
        }
    }

    /// Evaluates a list of expressions.
    pub fn eval_all(&self, es: &Vec<Expr>) -> (r: Result<Vec<Value>, OraError>)
        requires
            self.wf(),
        ensures
            ({
                let due = evaluated_upto(self@, ast::exprs_tree(*es), es@.len() as int);
                due == Err::<Seq<Datum>, Failure>(free()) || match r {
                    Ok(a) => due == Ok::<Seq<Datum>, Failure>(functions::views(a@)) && a@.len()
                        == es@.len(),
                    Err(e) => due == Err::<Seq<Datum>, Failure>(e@),
                }
            }),
            r matches Ok(a) ==> a@.len() == es@.len(),
        decreases es, 0int,
    {
        proof {
            reveal(evaluated);
            reveal(evaluated_upto);
            reveal(among);
            reveal(chosen);
        }
        let ghost all = ast::exprs_tree(*es);
        let mut out: Vec<Value> = Vec::new();
        assert(functions::views(out@) =~= Seq::empty());
        for i in 0..es.len()
            invariant
                self.wf(),
                all == ast::exprs_tree(*es),
                out@.len() == i,
                evaluated_upto(self@, all, i as int) == Err::<Seq<Datum>, Failure>(free())
                    || evaluated_upto(self@, all, i as int) == Ok::<Seq<Datum>, Failure>(
                    functions::views(out@),
                ),
        {
            proof {
                reveal(evaluated);
                reveal(evaluated_upto);
            }
            assert(all[i as int] == es@[i as int]@);
            match self.eval(&es[i]) {
                Ok(v) => {
                    let ghost before = functions::views(out@);
                    out.push(v);
                    assert(functions::views(out@) =~= before.push(v@));
                },
                Err(e) => {
                    proof {
                        a_failing_one_fails_all(self@, all, i + 1);
                    }
                    return Err(e);
                },
            }
        }
        Ok(out)
    }

    fn among(&self, v: &Value, es: &Vec<Expr>, from: usize) -> (r: Result<Option<bool>, OraError>)
        requires
            self.wf(),
            from <= es@.len(),
        ensures
            decides(among(self@, v@, ast::exprs_tree(*es), from as int), r),
        decreases es, es@.len() - from,
    {
        proof {
            reveal(evaluated);
            reveal(evaluated_upto);
            reveal(among);
            reveal(chosen);
        }
        if from >= es.len() {
            return Ok(Some(false));
        }
        assert(ast::exprs_tree(*es)[from as int] == es@[from as int]@);
        let x = self.eval(&es[from])?;
        let t = compare_as(self.env, BinaryOp::Eq, v, &x)?;
        if let Some(true) = t {
            return Ok(Some(true));
        }
        let rest = self.among(v, es, from + 1)?;
        Ok(or3(t, rest))
    }

    fn choose_case(
        &self,
        subject: &Option<Value>,
        whens: &Vec<(Expr, Expr)>,
        from: usize,
    ) -> (r: Option<Result<Value, OraError>>)
        requires
            self.wf(),
            from <= whens@.len(),
        ensures
            ({
                let due = chosen(
                    self@,
                    vars::opt_datum(*subject),
                    ast::expr_exprs_tree(*whens),
                    from as int,
                );
                due == Some(Err::<Datum, Failure>(free())) || match r {
                    Some(x) => due is Some && tells(due->0, x),
                    None => due is None,
                }
            }),
        decreases whens, whens@.len() - from,
    {
        proof {
            reveal(evaluated);
            reveal(evaluated_upto);
            reveal(among);
            reveal(chosen);
        }
        if from >= whens.len() {
            return None;
        }
        assert(ast::expr_exprs_tree(*whens)[from as int] == (
            whens@[from as int].0@,
            whens@[from as int].1@,
        ));
        let w = &whens[from];
        let hit = match subject {
            Some(v) => match self.eval(&w.0) {
                Err(e) => Err(e),
                Ok(x) => compare_as(self.env, BinaryOp::Eq, v, &x),
            },
            None => truth_of(self.eval(&w.0)),
        };
        match hit {
            Err(e) => Some(Err(e)),
            Ok(Some(true)) => Some(self.eval(&w.1)),
            Ok(_) => self.choose_case(subject, whens, from + 1),
        }
    }
}

/// The values of some expressions and of the one behind them.
pub proof fn one_more_value(s: Scene, es: Seq<tree::Expr>, n: int)
    requires
        0 <= n <= es.len(),
    ensures
        n == 0 ==> evaluated_upto(s, es, n) == Ok::<Seq<Datum>, Failure>(Seq::empty()),
        n > 0 ==> evaluated_upto(s, es, n) == match evaluated_upto(s, es, n - 1) {
            Err(e) => Err(e),
            Ok(a) => match evaluated(s, es[n - 1]) {
                Err(e) => Err(e),
                Ok(v) => Ok(a.push(v)),
            },
        },
{
    reveal(evaluated);
    reveal(evaluated_upto);
    reveal(among);
    reveal(chosen);
}

proof fn a_failing_one_fails_all(s: Scene, es: Seq<tree::Expr>, n: int)
    requires
        0 <= n <= es.len(),
        evaluated_upto(s, es, n) is Err,
    ensures
        evaluated_upto(s, es, es.len() as int) == evaluated_upto(s, es, n),
    decreases es.len() - n,
{
    reveal(evaluated_upto);
    if n < es.len() {
        a_failing_one_fails_all(s, es, n + 1);
    }
}

/// The position of a column.
pub fn field_index(columns: &Vec<TableColumn>, name: &str) -> (r: Option<usize>)
    ensures
        match r {
            Some(i) => catalog::index_of_field(catalog::fields(columns@), name@, 0) == Some(
                i as int,
            ) && i < columns@.len(),
            None => catalog::index_of_field(catalog::fields(columns@), name@, 0) is None,
        },
{
    let total: usize = columns.len();
    let mut i: usize = 0;
    while i < total
        invariant
            i <= total == columns@.len(),
            catalog::index_of_field(catalog::fields(columns@), name@, 0) == catalog::index_of_field(
                catalog::fields(columns@),
                name@,
                i as int,
            ),
        decreases total - i,
    {
        assert(catalog::fields(columns@)[i as int] == columns@[i as int]@);
        if text::same(&columns[i].name, name) {
            return Some(i);
        }
        i = i + 1;
    }
    None
}

} // verus!
