//! Recursive-descent parser for the supported subset of Oracle SQL.
//!
//! A production is a function from the place where it starts to what it reads
//! and the place behind it.

pub mod blocks;
pub mod tables;

use std::sync::Arc;

use vstd::prelude::*;
use vstd::string::*;
use vstd::utf8::*;

use crate::ast;
use crate::ast::{
    BinaryOp, Delete, Expr, FromItem, Insert, InsertSource, Join, OrderItem, Query, Returning, Select,
    SelectItem, SetExpr, Statement, TableFactor, Update,
};
use crate::error;
use crate::error::{Failure, OraError};
use crate::lexer;
use crate::lexer::{Lexeme, Tok, Token, Word};
use crate::number;
use crate::number::Number;
use crate::text::utf8_text;
use crate::text;
use crate::tree;
use crate::value;
use crate::value::{Datum, Value};

verus! {

/// A statement's text and tokens.
pub struct Source {
    pub lex: Seq<Lexeme>,
    pub sql: Seq<char>,
    /// Whether binds of one name are one bind, as in PL/SQL.
    pub by_name: bool,
    /// Whether only a select from DUAL is read.
    pub plain: bool,
}

/// ORA-06550 wrapping a PLS- compilation error, as Oracle reports them.
pub open spec fn pls(code: int, message: Seq<char>) -> Failure {
    error::failure(
        6550,
        "PLS-"@ + text::zero_filled(text::decimal(code as nat), 5) + ": "@ + message,
    )
}

pub fn pls_error(code: u32, message: &str) -> (e: OraError)
    ensures
        e@ == pls(code as int, message@),
{
    let mut m = "PLS-".to_owned();
    m.append(&text::decimal_filled(code as u64, 5));
    m.append(": ");
    m.append(message);
    OraError { code: 6550, message: m }
}

pub open spec fn expected(what: Seq<char>) -> Failure {
    pls(103, "Encountered an unexpected symbol when expecting "@ + what)
}

pub fn expected_error(what: &str) -> (e: OraError)
    ensures
        e@ == expected(what@),
{
    pls_error(103, &text::join("Encountered an unexpected symbol when expecting ", what))
}

/// A feature that is left out.
pub open spec fn unsupported(what: Seq<char>) -> Failure {
    error::failure(3001, "unimplemented feature: "@ + what)
}

pub fn unsupported_error(what: &str) -> (e: OraError)
    ensures
        e@ == unsupported(what@),
{
    OraError::new(3001, &text::join("unimplemented feature: ", what))
}

/// What is read when the place behind it is not before `from`, nor behind the
/// end; every production keeps to that.
pub open spec fn within<A>(r: Result<(A, int), Failure>, from: int, p: Source) -> Result<
    (A, int),
    Failure,
> {
    match r {
        Ok((a, j)) => if from <= j <= p.lex.len() {
            Ok((a, j))
        } else {
            Err(error::failure(600, "internal error code"@))
        },
        Err(e) => Err(e),
    }
}

pub open spec fn some<A>(r: Result<(A, int), Failure>) -> Result<(Option<A>, int), Failure> {
    match r {
        Ok((a, j)) => Ok((Some(a), j)),
        Err(e) => Err(e),
    }
}

pub open spec fn is_kw(p: Source, i: int, word: Seq<char>) -> bool {
    0 <= i < p.lex.len() && p.lex[i].word == Word::Ident(word)
}

pub open spec fn is_sym(p: Source, i: int, sym: Seq<char>) -> bool {
    0 <= i < p.lex.len() && p.lex[i].word == Word::Symbol(sym)
}

pub open spec fn is_ident(p: Source, i: int) -> bool {
    0 <= i < p.lex.len() && (p.lex[i].word is Ident || p.lex[i].word is Quoted)
}

/// The names of the binds in front of a place, in the order of their first use.
pub open spec fn bind_names(lex: Seq<Lexeme>, n: int) -> Seq<Seq<char>>
    decreases n,
{
    if n <= 0 {
        Seq::empty()
    } else {
        let before = bind_names(lex, n - 1);
        match lex[n - 1].word {
            Word::Bind(name) => if before.contains(name) {
                before
            } else {
                before.push(name)
            },
            _ => before,
        }
    }
}

/// How many binds stand in front of a place.
pub open spec fn bind_count(lex: Seq<Lexeme>, n: int) -> int
    decreases n,
{
    if n <= 0 {
        0
    } else {
        bind_count(lex, n - 1) + if lex[n - 1].word is Bind {
            1int
        } else {
            0
        }
    }
}

/// The position of the bind that stands at a place.
pub open spec fn bind_at(p: Source, i: int) -> int {
    if p.by_name {
        bind_names(p.lex, i + 1).index_of(p.lex[i].word->Bind_0)
    } else {
        bind_count(p.lex, i)
    }
}

/// How many binds a statement takes.
pub open spec fn binds_in(p: Source) -> int {
    if p.by_name {
        bind_names(p.lex, p.lex.len() as int).len() as int
    } else {
        bind_count(p.lex, p.lex.len() as int)
    }
}

/// The text from one byte up to another.
pub open spec fn text_between(sql: Seq<char>, from: int, to: int) -> Seq<char> {
    let b = encode_utf8(sql);
    if 0 <= from <= to <= b.len() && valid_utf8(b.subrange(from, to)) {
        decode_utf8(b.subrange(from, to))
    } else {
        Seq::empty()
    }
}

pub open spec fn without_white(s: Seq<char>) -> Seq<char>
    decreases s.len(),
{
    if s.len() == 0 {
        s
    } else if text::white(s.last()) {
        without_white(s.drop_last())
    } else {
        without_white(s.drop_last()).push(s.last())
    }
}

/// The name of a column without an alias: its text without white space, in
/// upper case.
pub open spec fn column_name(p: Source, i: int, j: int) -> Seq<char> {
    text::upper(without_white(text_between(p.sql, p.lex[i].start, p.lex[j - 1].end)))
}

pub open spec fn name_at(p: Source, i: int) -> Seq<char> {
    match p.lex[i].word {
        Word::Ident(s) => s,
        Word::Quoted(s) => s,
        _ => Seq::empty(),
    }
}

pub open spec fn not_a_name() -> Failure {
    error::failure(904, "invalid identifier"@)
}

pub open spec fn missing_expression() -> Failure {
    error::failure(936, "missing expression"@)
}

pub open spec fn no_from() -> Failure {
    error::failure(923, "FROM keyword not found where expected"@)
}

/// A name.
pub open spec fn ident(p: Source, i: int) -> Result<(Seq<char>, int), Failure> {
    if is_ident(p, i) {
        Ok((name_at(p, i), i + 1))
    } else {
        Err(not_a_name())
    }
}

/// The words that a table's alias cannot be.
pub open spec fn ends_table(w: Seq<char>) -> bool {
    w == "WHERE"@ || w == "SET"@ || w == "RETURNING"@ || w == "RETURN"@ || w == "ORDER"@ || w
        == "GROUP"@ || w == "HAVING"@ || w == "UNION"@ || w == "MINUS"@ || w == "INTERSECT"@ || w
        == "FETCH"@ || w == "OFFSET"@ || w == "JOIN"@ || w == "INNER"@ || w == "LEFT"@ || w
        == "RIGHT"@ || w == "FULL"@ || w == "CROSS"@ || w == "ON"@ || w == "FOR"@ || w == "VALUES"@
        || w == "SELECT"@ || w == "LOOP"@
}

pub fn word_ends_table(w: &str) -> (r: bool)
    ensures
        r == ends_table(w@),
{
    text::same(w, "WHERE") || text::same(w, "SET") || text::same(w, "RETURNING") || text::same(
        w,
        "RETURN",
    ) || text::same(w, "ORDER") || text::same(w, "GROUP") || text::same(w, "HAVING") || text::same(
        w,
        "UNION",
    ) || text::same(w, "MINUS") || text::same(w, "INTERSECT") || text::same(w, "FETCH")
        || text::same(w, "OFFSET") || text::same(w, "JOIN") || text::same(w, "INNER") || text::same(
        w,
        "LEFT",
    ) || text::same(w, "RIGHT") || text::same(w, "FULL") || text::same(w, "CROSS") || text::same(
        w,
        "ON",
    ) || text::same(w, "FOR") || text::same(w, "VALUES") || text::same(w, "SELECT") || text::same(
        w,
        "LOOP",
    )
}

/// Whether a table's alias stands at a place.
pub open spec fn is_alias(p: Source, i: int) -> bool {
    0 <= i < p.lex.len() && match p.lex[i].word {
        Word::Quoted(_) => true,
        Word::Ident(w) => !ends_table(w),
        _ => false,
    }
}

/// The comparison that stands at a place.
pub open spec fn comparison_at(p: Source, i: int) -> Option<BinaryOp> {
    if is_sym(p, i, "="@) {
        Some(BinaryOp::Eq)
    } else if is_sym(p, i, "<>"@) || is_sym(p, i, "!="@) || is_sym(p, i, "^="@) {
        Some(BinaryOp::NotEq)
    } else if is_sym(p, i, "<"@) {
        Some(BinaryOp::Lt)
    } else if is_sym(p, i, "<="@) {
        Some(BinaryOp::LtEq)
    } else if is_sym(p, i, ">"@) {
        Some(BinaryOp::Gt)
    } else if is_sym(p, i, ">="@) {
        Some(BinaryOp::GtEq)
    } else {
        None
    }
}

/// The operation that sums stand at a place.
pub open spec fn sum_at(p: Source, i: int) -> Option<BinaryOp> {
    if is_sym(p, i, "+"@) {
        Some(BinaryOp::Add)
    } else if is_sym(p, i, "-"@) {
        Some(BinaryOp::Sub)
    } else if is_sym(p, i, "||"@) {
        Some(BinaryOp::Concat)
    } else {
        None
    }
}

pub open spec fn product_at(p: Source, i: int) -> Option<BinaryOp> {
    if is_sym(p, i, "*"@) {
        Some(BinaryOp::Mul)
    } else if is_sym(p, i, "/"@) {
        Some(BinaryOp::Div)
    } else {
        None
    }
}

/// A name that was written with dots, as a column of what stands in front of
/// the last dot.
pub open spec fn column_of(name: Seq<char>) -> tree::Expr {
    match last_dot(name, name.len() as int) {
        Some(k) => tree::Expr::Column { table: Some(name.take(k)), name: name.skip(k + 1) },
        None => tree::Expr::Column { table: None, name },
    }
}

pub open spec fn last_dot(s: Seq<char>, n: int) -> Option<int>
    decreases n,
{
    if n <= 0 || n > s.len() {
        None
    } else if s[n - 1] == '.' {
        Some(n - 1)
    } else {
        last_dot(s, n - 1)
    }
}

pub fn find_last_dot(s: &[char]) -> (r: Option<usize>)
    ensures
        match r {
            Some(k) => last_dot(s@, s@.len() as int) == Some(k as int) && k < s@.len(),
            None => last_dot(s@, s@.len() as int) is None,
        },
{
    let mut n: usize = s.len();
    while n > 0
        invariant
            n <= s@.len(),
            last_dot(s@, s@.len() as int) == last_dot(s@, n as int),
        decreases n,
    {
        if s[n - 1] == '.' {
            return Some(n - 1);
        }
        n = n - 1;
    }
    None
}

fn column_named(name: &str) -> (r: Expr)
    ensures
        r@ == column_of(name@),
{
    let s = text::chars_of(name);
    match find_last_dot(&s) {
        Some(k) => {
            let total: usize = s.len();
            let table = text::slice(&s, 0, k);
            let column = text::slice(&s, k + 1, total);
            assert(table@ =~= name@.take(k as int));
            assert(column@ =~= name@.skip(k + 1));
            Expr::Column { table: Some(text::string_of(&table)), name: text::string_of(&column) }
        },
        None => Expr::Column { table: None, name: name.to_owned() },
    }
}

/// A small number that stands at a place.
pub open spec fn small_at(p: Source, i: int) -> Option<int> {
    if 0 <= i < p.lex.len() {
        match p.lex[i].word {
            Word::Number(s) => if 0 < s.len() <= 9 && number::all_digits(s) {
                Some(number::digits_value(s) as int)
            } else {
                None
            },
            _ => None,
        }
    } else {
        None
    }
}

/// A statement's tokens, with the position of each bind.
pub struct Parser<'a> {
    pub(crate) sql: &'a str,
    pub(crate) tokens: Vec<Token>,
    pub(crate) binds: Vec<usize>,
    pub(crate) by_name: bool,
    pub(crate) plain: bool,
}

impl<'a> Parser<'a> {
    #[verifier::opaque]
    pub open(crate) spec fn source(&self) -> Source {
        Source {
            lex: lexer::lexemes(self.tokens@),
            sql: self.sql@,
            by_name: self.by_name,
            plain: self.plain,
        }
    }

    /// The binds are numbered.
    #[verifier::opaque]
    pub open(crate) spec fn numbered(&self) -> bool {
        forall|i: int|
            0 <= i < self.tokens@.len() && self.tokens@[i].tok is Bind
                ==> #[trigger] self.binds@[i] == bind_at(self.source(), i)
    }

    pub open(crate) spec fn inv(&self) -> bool {
        &&& self.binds@.len() == self.tokens@.len() == self.source().lex.len() <= usize::MAX
        &&& self.source().plain == self.plain
        &&& self.numbered()
    }

    /// The number of the bind that stands at a place.
    pub(crate) fn bind(&self, i: usize) -> (r: usize)
        requires
            self.inv(),
            is_bind(self.source(), i as int),
        ensures
            r == bind_at(self.source(), i as int),
    {
        proof {
            reveal(Parser::source);
            reveal(Parser::numbered);
            assert(self.tokens@[i as int].tok is Bind);
            assert(self.binds@[i as int] == bind_at(self.source(), i as int));
        }
        self.binds[i]
    }

    pub(crate) fn is_kw(&self, i: usize, ahead: usize, word: &str) -> (r: bool)
        requires
            i <= self.tokens@.len(),
        ensures
            r == is_kw(self.source(), i + ahead, word@),
    {
        proof {
            reveal(Parser::source);
        }
        if ahead >= self.tokens.len() - i {
            return false;
        }
        match &self.tokens[i + ahead].tok {
            Tok::Ident(s) => text::same(s, word),
            _ => false,
        }
    }

    pub(crate) fn is_sym(&self, i: usize, ahead: usize, sym: &str) -> (r: bool)
        requires
            i <= self.tokens@.len(),
        ensures
            r == is_sym(self.source(), i + ahead, sym@),
    {
        proof {
            reveal(Parser::source);
        }
        if ahead >= self.tokens.len() - i {
            return false;
        }
        match &self.tokens[i + ahead].tok {
            Tok::Symbol(s) => text::same(s, sym),
            _ => false,
        }
    }

    pub(crate) fn is_ident(&self, i: usize, ahead: usize) -> (r: bool)
        requires
            i <= self.tokens@.len(),
        ensures
            r == is_ident(self.source(), i + ahead),
    {
        proof {
            reveal(Parser::source);
        }
        if ahead >= self.tokens.len() - i {
            return false;
        }
        match &self.tokens[i + ahead].tok {
            Tok::Ident(_) => true,
            Tok::QuotedIdent(_) => true,
            _ => false,
        }
    }

    /// A name.
    pub(crate) fn ident(&self, i: usize) -> (r: Result<(String, usize), OraError>)
        requires
            self.inv(),
            i <= self.tokens@.len(),
        ensures
            match r {
                Ok((s, j)) => ident(self.source(), i as int) == Ok::<(Seq<char>, int), Failure>(
                    (s@, j as int),
                ) && i + 1 <= j <= self.tokens@.len(),
                Err(e) => ident(self.source(), i as int) == Err::<(Seq<char>, int), Failure>(e@),
            },
    {
        proof {
            reveal(Parser::source);
        }
        if i < self.tokens.len() {
            match &self.tokens[i].tok {
                Tok::Ident(s) => {
                    return Ok((s.clone(), i + 1));
                },
                Tok::QuotedIdent(s) => {
                    return Ok((s.clone(), i + 1));
                },
                _ => {},
            }
        }
        Err(OraError::new(904, "invalid identifier"))
    }

    pub(crate) fn alias_here(&self, i: usize) -> (r: bool)
        requires
            i <= self.tokens@.len(),
        ensures
            r == is_alias(self.source(), i as int),
    {
        proof {
            reveal(Parser::source);
        }
        if i >= self.tokens.len() {
            return false;
        }
        match &self.tokens[i].tok {
            Tok::Ident(s) => !word_ends_table(s),
            Tok::QuotedIdent(_) => true,
            _ => false,
        }
    }

    pub(crate) fn comparison(&self, i: usize) -> (r: Option<BinaryOp>)
        requires
            i <= self.tokens@.len(),
        ensures
            r == comparison_at(self.source(), i as int),
    {
        if self.is_sym(i, 0, "=") {
            Some(BinaryOp::Eq)
        } else if self.is_sym(i, 0, "<>") || self.is_sym(i, 0, "!=") || self.is_sym(i, 0, "^=") {
            Some(BinaryOp::NotEq)
        } else if self.is_sym(i, 0, "<") {
            Some(BinaryOp::Lt)
        } else if self.is_sym(i, 0, "<=") {
            Some(BinaryOp::LtEq)
        } else if self.is_sym(i, 0, ">") {
            Some(BinaryOp::Gt)
        } else if self.is_sym(i, 0, ">=") {
            Some(BinaryOp::GtEq)
        } else {
            None
        }
    }

    pub(crate) fn sum(&self, i: usize) -> (r: Option<BinaryOp>)
        requires
            i <= self.tokens@.len(),
        ensures
            r == sum_at(self.source(), i as int),
    {
        if self.is_sym(i, 0, "+") {
            Some(BinaryOp::Add)
        } else if self.is_sym(i, 0, "-") {
            Some(BinaryOp::Sub)
        } else if self.is_sym(i, 0, "||") {
            Some(BinaryOp::Concat)
        } else {
            None
        }
    }

    pub(crate) fn product(&self, i: usize) -> (r: Option<BinaryOp>)
        requires
            i <= self.tokens@.len(),
        ensures
            r == product_at(self.source(), i as int),
    {
        if self.is_sym(i, 0, "*") {
            Some(BinaryOp::Mul)
        } else if self.is_sym(i, 0, "/") {
            Some(BinaryOp::Div)
        } else {
            None
        }
    }

    /// The small number that stands at a place.
    pub(crate) fn small(&self, i: usize) -> (r: Option<u32>)
        requires
            i <= self.tokens@.len(),
        ensures
            match r {
                Some(n) => small_at(self.source(), i as int) == Some(n as int) && i
                    < self.tokens@.len() && n < 1_000_000_000,
                None => small_at(self.source(), i as int) is None,
            },
    {
        proof {
            reveal(Parser::source);
        }
        if i >= self.tokens.len() {
            return None;
        }
        match &self.tokens[i].tok {
            Tok::Number(t) => {
                let s = text::chars_of(t);
                if s.len() == 0 || s.len() > 9 {
                    return None;
                }
                let mut n: u32 = 0;
                let mut k: usize = 0;
                let ghost bounds = seq![1nat, 10, 100, 1000, 10000, 100000, 1000000, 10000000, 100000000, 1000000000];
                while k < s.len()
                    invariant
                        k <= s@.len() <= 9,
                        s@ == t@,
                        i < self.tokens@.len(),
                        self.tokens@[i as int].tok@ == Word::Number(t@),
                        number::all_digits(s@.take(k as int)),
                        n == number::digits_value(s@.take(k as int)),
                        bounds == seq![1nat, 10, 100, 1000, 10000, 100000, 1000000, 10000000, 100000000, 1000000000],
                        n < bounds[k as int],
                    decreases s@.len() - k,
                {
                    if !text::digit_of(s[k]) {
                        proof {
                            reveal(Parser::source);
                        }
                        assert(!text::is_digit(t@[k as int]));
                        return None;
                    }
                    assert(s@.take(k + 1).drop_last() =~= s@.take(k as int));
                    assert(s@.take(k + 1).last() == s@[k as int]);
                    assert(bounds[k + 1] == 10 * bounds[k as int]);
                    n = n * 10 + (s[k] as u32 - 48);
                    k = k + 1;
                }
                assert(s@.take(k as int) =~= s@);
                Some(n)
            },
            _ => None,
        }
    }

    /// The name of a column without an alias.
    fn column_text(&self, i: usize, j: usize) -> (r: String)
        requires
            i < j <= self.tokens@.len(),
        ensures
            r@ == column_name(self.source(), i as int, j as int),
    {
        proof {
            reveal(Parser::source);
        }
        let from: usize = self.tokens[i].start;
        let to: usize = self.tokens[j - 1].end;
        let b = self.sql.as_bytes();
        let mut t: Vec<char> = Vec::new();
        if from <= to && to <= b.len() {
            let part = vstd::slice::slice_subrange(b, from, to);
            let mut copy: Vec<u8> = Vec::new();
            copy.extend_from_slice(part);
            assert(copy@ =~= part@);
            match utf8_text(copy) {
                Some(s) => {
                    t = text::chars_of(&s);
                },
                None => {},
            }
        }
        assert(t@ =~= text_between(self.sql@, from as int, to as int));
        let mut kept: Vec<char> = Vec::new();
        for k in 0..t.len()
            invariant
                kept@ == without_white(t@.take(k as int)),
        {
            assert(t@.take(k + 1).drop_last() =~= t@.take(k as int));
            if !t[k].is_whitespace() {
                kept.push(t[k]);
            }
        }
        assert(t@.take(t@.len() as int) =~= t@);
        text::string_of(&kept).as_str().to_uppercase()
    }
}

pub open spec fn is_bind(p: Source, i: int) -> bool {
    0 <= i < p.lex.len() && p.lex[i].word is Bind
}

/// Whether an unquoted name stands at a place.
pub open spec fn is_word(p: Source, i: int) -> bool {
    0 <= i < p.lex.len() && p.lex[i].word is Ident
}

/// The types of whole numbers in PL/SQL.
pub open spec fn is_integer_type(w: Seq<char>) -> bool {
    w == "PLS_INTEGER"@ || w == "BINARY_INTEGER"@ || w == "NATURAL"@ || w == "NATURALN"@ || w
        == "POSITIVE"@ || w == "POSITIVEN"@ || w == "SIMPLE_INTEGER"@ || w == "SIGNTYPE"@
}

/// What stands behind the last dot of a name.
pub open spec fn last_part(name: Seq<char>) -> Seq<char> {
    match last_dot(name, name.len() as int) {
        Some(k) => name.skip(k + 1),
        None => name,
    }
}

pub fn last_part_of(name: &str) -> (r: String)
    ensures
        r@ == last_part(name@),
{
    let s = text::chars_of(name);
    match find_last_dot(&s) {
        Some(k) => {
            let total: usize = s.len();
            let part = text::slice(&s, k + 1, total);
            assert(part@ =~= name@.skip(k + 1));
            text::string_of(&part)
        },
        None => name.to_owned(),
    }
}

pub open spec fn boxed(e: Option<tree::Expr>) -> Option<Box<tree::Expr>> {
    match e {
        Some(e) => Some(Box::new(e)),
        None => None,
    }
}

pub(crate) fn boxed_expr(e: Option<Expr>) -> (r: Option<Box<Expr>>)
    ensures
        ast::opt_boxed_expr_tree(r) == boxed(ast::opt_expr_tree(e)),
{
    match e {
        Some(e) => Some(Box::new(e)),
        None => None,
    }
}

pub(crate) fn pushed_expr(list: Vec<Expr>, e: Expr) -> (r: Vec<Expr>)
    ensures
        ast::exprs_tree(r) == ast::exprs_tree(list).push(e@),
{
    let mut out = list;
    out.push(e);
    assert(ast::exprs_tree(out) =~= ast::exprs_tree(list).push(e@));
    out
}

pub(crate) fn pushed_name(list: Vec<String>, e: String) -> (r: Vec<String>)
    ensures
        ast::texts_tree(r) == ast::texts_tree(list).push(e@),
{
    let mut out = list;
    out.push(e);
    assert(ast::texts_tree(out) =~= ast::texts_tree(list).push(e@));
    out
}

fn pushed_item(list: Vec<SelectItem>, e: SelectItem) -> (r: Vec<SelectItem>)
    ensures
        ast::select_items_tree(r) == ast::select_items_tree(list).push(e@),
{
    let mut out = list;
    out.push(e);
    assert(ast::select_items_tree(out) =~= ast::select_items_tree(list).push(e@));
    out
}

fn pushed_assignment(list: Vec<(String, Expr)>, name: String, e: Expr) -> (r: Vec<(String, Expr)>)
    ensures
        ast::text_exprs_tree(r) == ast::text_exprs_tree(list).push((name@, e@)),
{
    let mut out = list;
    out.push((name, e));
    assert(ast::text_exprs_tree(out) =~= ast::text_exprs_tree(list).push((name@, e@)));
    out
}

fn with_part(name: String, part: &str) -> (r: String)
    ensures
        r@ == name@ + seq!['.'] + part@,
{
    let mut s = name;
    s.push('.');
    s.append(part);
    assert(s@ =~= name@ + seq!['.'] + part@);
    s
}

fn no_from_error() -> (e: OraError)
    ensures
        e@ == no_from(),
{
    OraError::new(923, "FROM keyword not found where expected")
}

/// A query of one table.
pub open spec fn one_table(
    distinct: bool,
    items: Seq<tree::SelectItem>,
    name: Seq<char>,
    alias: Option<Seq<char>>,
    where_: Option<tree::Expr>,
) -> tree::Query {
    tree::Query {
        body: tree::SetExpr::Select(
            Box::new(
                tree::Select {
                    distinct,
                    items,
                    from: seq![
                        tree::FromItem {
                            factor: tree::TableFactor::Table { name, alias },
                            joins: Seq::empty(),
                        },
                    ],
                    where_,
                    group_by: Seq::empty(),
                    having: None,
                },
            ),
        ),
        order_by: Seq::empty(),
        offset: None,
        fetch: None,
    }
}

fn one_table_query(
    distinct: bool,
    items: Vec<SelectItem>,
    name: String,
    alias: Option<String>,
    where_: Option<Expr>,
) -> (r: Query)
    ensures
        r@ == one_table(
            distinct,
            ast::select_items_tree(items),
            name@,
            ast::opt_text_tree(alias),
            ast::opt_expr_tree(where_),
        ),
{
    let joins: Vec<Join> = Vec::new();
    assert(ast::joins_tree(joins) =~= Seq::empty());
    let item = FromItem { factor: TableFactor::Table { name, alias }, joins };
    let ghost shown = item@;
    let mut from: Vec<FromItem> = Vec::new();
    from.push(item);
    assert(ast::from_items_tree(from) =~= seq![shown]);
    let group_by: Vec<Expr> = Vec::new();
    assert(ast::exprs_tree(group_by) =~= Seq::empty());
    let order_by: Vec<OrderItem> = Vec::new();
    assert(ast::order_items_tree(order_by) =~= Seq::empty());
    let s = Select { distinct, items, from, where_, group_by, having: None };
    let ghost select = s@;
    let body = SetExpr::Select(Box::new(s));
    assert(body@ == tree::SetExpr::Select(Box::new(select)));
    Query { body, order_by, offset: None, fetch: None }
}

/// A call of a function. TRIM of a text alone trims blanks at both of its ends.
#[verifier::opaque]
pub open spec fn function_of(name: Seq<char>, args: Seq<tree::Expr>, distinct: bool) -> tree::Expr {
    tree::Expr::Function {
        name,
        args: if name == "TRIM"@ && args.len() == 1 {
            seq![
                tree::Expr::Literal(value::varchar("BOTH"@)),
                tree::Expr::Literal(value::varchar(" "@)),
                args[0],
            ]
        } else {
            args
        },
        distinct,
    }
}

fn function_called(name: String, args: Vec<Expr>, distinct: bool) -> (e: Expr)
    ensures
        e@ == function_of(name@, ast::exprs_tree(args), distinct),
{
    proof {
        reveal(function_of);
    }
    if args.len() == 1 && text::same(&name, "TRIM") {
        let mode = Expr::Literal(Value::varchar("BOTH"));
        let blank = Expr::Literal(Value::varchar(" "));
        let ghost all = seq![mode@, blank@, ast::exprs_tree(args)[0]];
        let mut args = args;
        args.insert(0, blank);
        args.insert(0, mode);
        assert(ast::exprs_tree(args) =~= all);
        Expr::Function { name, args, distinct }
    } else {
        Expr::Function { name, args, distinct }
    }
}

/// `DATE '..'`: the day that the text at a place gives as year, month and day.
#[verifier::opaque]
pub open spec fn date_at(p: Source, i: int) -> Option<tree::Expr> {
    if 0 <= i < p.lex.len() {
        match p.lex[i].word {
            Word::Str(s) => Some(
                tree::Expr::Function {
                    name: "TO_DATE"@,
                    args: seq![
                        tree::Expr::Literal(value::varchar(s)),
                        tree::Expr::Literal(value::varchar("YYYY-MM-DD"@)),
                    ],
                    distinct: false,
                },
            ),
            _ => None,
        }
    } else {
        None
    }
}

/// What an atom of an expression is.
pub open spec fn primary(p: Source, i: int) -> Result<(tree::Expr, int), Failure>
    decreases p.lex.len() - i, 7int,
{
    if i < 0 || i >= p.lex.len() {
        Err(missing_expression())
    } else {
        match p.lex[i].word {
            Word::Number(n) => match number::number_of(n) {
                Some(d) => Ok((tree::Expr::Literal(Datum::Number(d)), i + 1)),
                None => Err(value::invalid_number()),
            },
            Word::Str(s) => Ok((tree::Expr::Literal(value::varchar(s)), i + 1)),
            Word::Bind(_) => Ok((tree::Expr::Bind(bind_at(p, i)), i + 1)),
            Word::Symbol(s) => if s == "("@ {
                bracketed(p, i + 1)
            } else {
                Err(missing_expression())
            },
            Word::Quoted(s) => if p.plain {
                Ok((tree::Expr::Column { table: None, name: s }, i + 1))
            } else {
                named(p, i)
            },
            Word::Ident(s) => if s == "NULL"@ {
                Ok((tree::Expr::Literal(Datum::Null), i + 1))
            } else if s == "FROM"@ {
                Err(missing_expression())
            } else if p.plain {
                Ok((tree::Expr::Column { table: None, name: s }, i + 1))
            } else if s == "TRUE"@ || s == "FALSE"@ {
                Ok((tree::Expr::Literal(Datum::Boolean(s == "TRUE"@)), i + 1))
            } else if s == "CASE"@ {
                case_expr(p, i + 1)
            } else if s == "ROWNUM"@ {
                Ok((tree::Expr::RowNum, i + 1))
            } else if s == "EXISTS"@ && is_sym(p, i + 1, "("@) {
                exists_query(p, i + 2)
            } else if s == "DATE"@ && date_at(p, i + 1) is Some {
                Ok((date_at(p, i + 1)->0, i + 2))
            } else {
                named(p, i)
            },
        }
    }
}

/// The value in ALTER SESSION: a text, a word or a number.
pub open spec fn setting(p: Source, i: int) -> Result<(Seq<char>, int), Failure> {
    if 0 <= i < p.lex.len() {
        match p.lex[i].word {
            Word::Str(s) => Ok((s, i + 1)),
            Word::Ident(s) => Ok((s, i + 1)),
            Word::Number(s) => Ok((s, i + 1)),
            _ => Err(error::failure(922, "missing or invalid option"@)),
        }
    } else {
        Err(error::failure(922, "missing or invalid option"@))
    }
}

/// An expression: conditions under OR.
pub open spec fn expr(p: Source, i: int) -> Result<(tree::Expr, int), Failure>
    decreases p.lex.len() - i, 19int,
{
    match within(and_expr(p, i), i + 1, p) {
        Err(e) => Err(e),
        Ok((left, i)) => {
            within(or_rest(p, i, left), i, p)
        },
    }
}

pub open spec fn or_rest(p: Source, i: int, left: tree::Expr) -> Result<(tree::Expr, int), Failure>
    decreases p.lex.len() - i, 18int,
{
    if !is_kw(p, i, "OR"@) {
        Ok((left, i))
    } else {
        match within(and_expr(p, i + 1), i + 2, p) {
            Err(e) => Err(e),
            Ok((right, i)) => {
                or_rest(p, i, tree::Expr::Binary(BinaryOp::Or, Box::new(left), Box::new(right)))
            },
        }
    }
}

pub open spec fn and_expr(p: Source, i: int) -> Result<(tree::Expr, int), Failure>
    decreases p.lex.len() - i, 17int,
{
    match within(not_expr(p, i), i + 1, p) {
        Err(e) => Err(e),
        Ok((left, i)) => {
            within(and_rest(p, i, left), i, p)
        },
    }
}

pub open spec fn and_rest(p: Source, i: int, left: tree::Expr) -> Result<(tree::Expr, int), Failure>
    decreases p.lex.len() - i, 16int,
{
    if !is_kw(p, i, "AND"@) {
        Ok((left, i))
    } else {
        match within(not_expr(p, i + 1), i + 2, p) {
            Err(e) => Err(e),
            Ok((right, i)) => {
                and_rest(p, i, tree::Expr::Binary(BinaryOp::And, Box::new(left), Box::new(right)))
            },
        }
    }
}

pub open spec fn not_expr(p: Source, i: int) -> Result<(tree::Expr, int), Failure>
    decreases p.lex.len() - i, 15int,
{
    if is_kw(p, i, "NOT"@) {
        match within(not_expr(p, i + 1), i + 2, p) {
            Err(e) => Err(e),
            Ok((e, i)) => {
                Ok((tree::Expr::Not(Box::new(e)), i))
            },
        }
    } else {
        within(predicate(p, i), i + 1, p)
    }
}

/// A sum, or a condition on one.
pub open spec fn predicate(p: Source, i: int) -> Result<(tree::Expr, int), Failure>
    decreases p.lex.len() - i, 14int,
{
    match within(additive(p, i), i + 1, p) {
        Err(e) => Err(e),
        Ok((left, i)) => {
            within(predicate_rest(p, i, left), i, p)
        },
    }
}

/// What follows the sum that a condition is about.
pub open spec fn predicate_rest(p: Source, i: int, left: tree::Expr) -> Result<(tree::Expr, int), Failure>
    decreases p.lex.len() - i, 13int,
{
    let op = comparison_at(p, i);
    match op {
        Some(op) => {
            match within(additive(p, i + 1), i + 2, p) {
                Err(e) => Err(e),
                Ok((right, i)) => {
                    Ok((tree::Expr::Binary(op, Box::new(left), Box::new(right)), i))
                },
            }
        },
        None => {
            if is_kw(p, i, "IS"@) {
                let i = i + 1;
                let negated = is_kw(p, i, "NOT"@);
                let i = if negated {
                    i + 1
                } else {
                    i
                };
                if !is_kw(p, i, "NULL"@) {
                    Err(error::failure(905, "missing keyword"@))
                } else {
                    let i = i + 1;
                    Ok((tree::Expr::IsNull { expr: Box::new(left), negated }, i))
                }
            } else {
                let negated = is_kw(p, i, "NOT"@) && (is_kw(p, i + 1, "BETWEEN"@) || is_kw(p, i + 1, "IN"@) || is_kw(p, i + 1, "LIKE"@));
                let i = if negated {
                    i + 1
                } else {
                    i
                };
                if is_kw(p, i, "BETWEEN"@) {
                    within(between_rest(p, i + 1, left, negated), i + 2, p)
                } else if is_kw(p, i, "IN"@) {
                    within(in_rest(p, i + 1, left, negated), i + 2, p)
                } else if is_kw(p, i, "LIKE"@) {
                    within(like_rest(p, i + 1, left, negated), i + 2, p)
                } else {
                    Ok((left, i))
                }
            }
        },
    }
}

pub open spec fn between_rest(p: Source, i: int, left: tree::Expr, negated: bool) -> Result<(tree::Expr, int), Failure>
    decreases p.lex.len() - i, 22int,
{
    match within(additive(p, i), i + 1, p) {
        Err(e) => Err(e),
        Ok((low, i)) => {
            if !is_kw(p, i, "AND"@) {
                Err(error::failure(905, "missing keyword"@))
            } else {
                let i = i + 1;
                match within(additive(p, i), i + 1, p) {
                    Err(e) => Err(e),
                    Ok((high, i)) => {
                        Ok((tree::Expr::Between { expr: Box::new(left), low: Box::new(low), high: Box::new(high), negated }, i))
                    },
                }
            }
        },
    }
}

pub open spec fn in_rest(p: Source, i: int, left: tree::Expr, negated: bool) -> Result<(tree::Expr, int), Failure>
    decreases p.lex.len() - i, 22int,
{
    if !is_sym(p, i, "("@) {
        Err(error::failure(906, "missing left parenthesis"@))
    } else {
        let i = i + 1;
        if is_kw(p, i, "SELECT"@) {
            match within(query(p, i), i + 1, p) {
                Err(e) => Err(e),
                Ok((q, i)) => {
                    if !is_sym(p, i, ")"@) {
                        Err(error::failure(907, "missing right parenthesis"@))
                    } else {
                        let i = i + 1;
                        Ok((tree::Expr::InSubquery { expr: Box::new(left), query: Box::new(q), negated }, i))
                    }
                },
            }
        } else {
            match within(expr_list(p, i, Seq::empty()), i + 1, p) {
                Err(e) => Err(e),
                Ok((list, i)) => {
                    if !is_sym(p, i, ")"@) {
                        Err(error::failure(907, "missing right parenthesis"@))
                    } else {
                        let i = i + 1;
                        Ok((tree::Expr::InList { expr: Box::new(left), list, negated }, i))
                    }
                },
            }
        }
    }
}

pub open spec fn like_rest(p: Source, i: int, left: tree::Expr, negated: bool) -> Result<(tree::Expr, int), Failure>
    decreases p.lex.len() - i, 22int,
{
    match within(additive(p, i), i + 1, p) {
        Err(e) => Err(e),
        Ok((pattern, i)) => {
            match within(escape_clause(p, i), i, p) {
                Err(e) => Err(e),
                Ok((escape, i)) => {
                    Ok((tree::Expr::Like { expr: Box::new(left), pattern: Box::new(pattern), escape: boxed(escape), negated }, i))
                },
            }
        },
    }
}

/// Expressions with commas between them.
pub open spec fn expr_list(p: Source, i: int, acc: Seq<tree::Expr>) -> Result<(Seq<tree::Expr>, int), Failure>
    decreases p.lex.len() - i, 20int,
{
    match within(expr(p, i), i + 1, p) {
        Err(e) => Err(e),
        Ok((e, i)) => {
            if !is_sym(p, i, ","@) {
                Ok((acc.push(e), i))
            } else {
                let i = i + 1;
                expr_list(p, i, acc.push(e))
            }
        },
    }
}

/// Terms with `+`, `-` or `||` between them.
pub open spec fn additive(p: Source, i: int) -> Result<(tree::Expr, int), Failure>
    decreases p.lex.len() - i, 12int,
{
    match within(term(p, i), i + 1, p) {
        Err(e) => Err(e),
        Ok((left, i)) => {
            within(sum_rest(p, i, left), i, p)
        },
    }
}

pub open spec fn sum_rest(p: Source, i: int, left: tree::Expr) -> Result<(tree::Expr, int), Failure>
    decreases p.lex.len() - i, 11int,
{
    let op = sum_at(p, i);
    match op {
        Some(op) => {
            match within(term(p, i + 1), i + 2, p) {
                Err(e) => Err(e),
                Ok((right, i)) => {
                    sum_rest(p, i, tree::Expr::Binary(op, Box::new(left), Box::new(right)))
                },
            }
        },
        None => {
            Ok((left, i))
        },
    }
}

/// Factors with `*` or `/` between them.
pub open spec fn term(p: Source, i: int) -> Result<(tree::Expr, int), Failure>
    decreases p.lex.len() - i, 10int,
{
    match within(unary(p, i), i + 1, p) {
        Err(e) => Err(e),
        Ok((left, i)) => {
            within(product_rest(p, i, left), i, p)
        },
    }
}

pub open spec fn product_rest(p: Source, i: int, left: tree::Expr) -> Result<(tree::Expr, int), Failure>
    decreases p.lex.len() - i, 9int,
{
    let op = product_at(p, i);
    match op {
        Some(op) => {
            match within(unary(p, i + 1), i + 2, p) {
                Err(e) => Err(e),
                Ok((right, i)) => {
                    product_rest(p, i, tree::Expr::Binary(op, Box::new(left), Box::new(right)))
                },
            }
        },
        None => {
            Ok((left, i))
        },
    }
}

pub open spec fn unary(p: Source, i: int) -> Result<(tree::Expr, int), Failure>
    decreases p.lex.len() - i, 8int,
{
    if is_sym(p, i, "-"@) {
        match within(unary(p, i + 1), i + 2, p) {
            Err(e) => Err(e),
            Ok((e, i)) => {
                Ok((tree::Expr::Neg(Box::new(e)), i))
            },
        }
    } else if is_sym(p, i, "+"@) {
        within(unary(p, i + 1), i + 2, p)
    } else {
        within(primary(p, i), i + 1, p)
    }
}

/// `a.b.c` as one name.
pub open spec fn dotted_name(p: Source, i: int) -> Result<(Seq<char>, int), Failure>
    decreases p.lex.len() - i, 2int,
{
    match within(ident(p, i), i + 1, p) {
        Err(e) => Err(e),
        Ok((name, i)) => {
            within(dotted_rest(p, i, name), i, p)
        },
    }
}

pub open spec fn dotted_rest(p: Source, i: int, name: Seq<char>) -> Result<(Seq<char>, int), Failure>
    decreases p.lex.len() - i, 1int,
{
    if !(is_sym(p, i, "."@) && is_ident(p, i + 1)) {
        Ok((name, i))
    } else {
        match within(ident(p, i + 1), i + 2, p) {
            Err(e) => Err(e),
            Ok((part, i)) => {
                dotted_rest(p, i, name + seq!['.'] + part)
            },
        }
    }
}

/// `[operand] WHEN .. THEN .. [ELSE ..] END`, behind CASE.
pub open spec fn case_expr(p: Source, i: int) -> Result<(tree::Expr, int), Failure>
    decreases p.lex.len() - i, 23int,
{
    match within(case_expr_operand(p, i), i, p) {
        Err(e) => Err(e),
        Ok((operand, i)) => {
            match within(case_whens(p, i, Seq::empty()), i, p) {
                Err(e) => Err(e),
                Ok((whens, i)) => {
                    within(case_tail(p, i, operand, whens), i + 1, p)
                },
            }
        },
    }
}

pub open spec fn case_tail(p: Source, i: int, operand: Option<tree::Expr>, whens: Seq<(tree::Expr, tree::Expr)>) -> Result<(tree::Expr, int), Failure>
    decreases p.lex.len() - i, 22int,
{
    match within(else_clause(p, i), i, p) {
        Err(e) => Err(e),
        Ok((else_, i)) => {
            if !is_kw(p, i, "END"@) {
                Err(error::failure(905, "missing keyword"@))
            } else {
                let i = i + 1;
                Ok((tree::Expr::Case { operand: boxed(operand), whens, else_: boxed(else_) }, i))
            }
        },
    }
}

pub open spec fn case_operand(p: Source, i: int) -> Result<(Option<tree::Expr>, int), Failure>
    decreases p.lex.len() - i, 20int,
{
    match within(expr(p, i), i + 1, p) {
        Err(e) => Err(e),
        Ok((e, i)) => {
            Ok((Some(e), i))
        },
    }
}

pub open spec fn case_whens(p: Source, i: int, acc: Seq<(tree::Expr, tree::Expr)>) -> Result<(Seq<(tree::Expr, tree::Expr)>, int), Failure>
    decreases p.lex.len() - i, 21int,
{
    if !is_kw(p, i, "WHEN"@) {
        Ok((acc, i))
    } else {
        match within(expr(p, i + 1), i + 2, p) {
            Err(e) => Err(e),
            Ok((w, i)) => {
                if !is_kw(p, i, "THEN"@) {
                    Err(error::failure(905, "missing keyword"@))
                } else {
                    let i = i + 1;
                    match within(expr(p, i), i + 1, p) {
                        Err(e) => Err(e),
                        Ok((t, i)) => {
                            case_whens(p, i, acc.push((w, t)))
                        },
                    }
                }
            },
        }
    }
}

/// The arguments of a function, behind the bracket.
pub open spec fn function(p: Source, i: int, name: Seq<char>) -> Result<(tree::Expr, int), Failure>
    decreases p.lex.len() - i, 25int,
{
    if name == "COUNT"@ && is_sym(p, i, "*"@) && is_sym(p, i + 1, ")"@) {
        let i = i + 2;
        Ok((tree::Expr::CountStar, i))
    } else {
        within(function_args(p, i, name), i + 1, p)
    }
}

pub open spec fn function_args(p: Source, i: int, name: Seq<char>) -> Result<(tree::Expr, int), Failure>
    decreases p.lex.len() - i, 24int,
{
    match within(distinct_word(p, i), i, p) {
        Err(e) => Err(e),
        Ok((distinct, i)) => {
            match within(closed_list(p, i), i + 1, p) {
                Err(e) => Err(e),
                Ok((args, i)) => {
                    Ok((function_of(name, args, distinct), i))
                },
            }
        },
    }
}

pub open spec fn distinct_word(p: Source, i: int) -> Result<(bool, int), Failure>
    decreases p.lex.len() - i, 0int,
{
    if is_kw(p, i, "DISTINCT"@) {
        let i = i + 1;
        Ok((true, i))
    } else {
        Ok((false, i))
    }
}

/// Expressions up to a closing bracket.
pub open spec fn closed_list(p: Source, i: int) -> Result<(Seq<tree::Expr>, int), Failure>
    decreases p.lex.len() - i, 23int,
{
    if is_sym(p, i, ")"@) {
        let i = i + 1;
        Ok((Seq::empty(), i))
    } else {
        match within(expr_list(p, i, Seq::empty()), i + 1, p) {
            Err(e) => Err(e),
            Ok((args, i)) => {
                if !is_sym(p, i, ")"@) {
                    Err(error::failure(907, "missing right parenthesis"@))
                } else {
                    let i = i + 1;
                    Ok((args, i))
                }
            },
        }
    }
}

/// A query.
pub open spec fn query(p: Source, i: int) -> Result<(tree::Query, int), Failure>
    decreases p.lex.len() - i, 25int,
{
    match within(select(p, i, false), i + 1, p) {
        Err(e) => Err(e),
        Ok((found, i)) => {
            Ok((found.0, i))
        },
    }
}

/// `SELECT items [INTO targets] FROM table [alias] [WHERE condition]`.
pub open spec fn select(p: Source, i: int, into_ok: bool) -> Result<((tree::Query, Option<Seq<tree::Expr>>), int), Failure>
    decreases p.lex.len() - i, 24int,
{
    if !is_kw(p, i, "SELECT"@) {
        Err(error::failure(900, "invalid SQL statement"@))
    } else {
        let i = i + 1;
        let distinct = !p.plain && is_kw(p, i, "DISTINCT"@);
        let i = if distinct {
            i + 1
        } else {
            i
        };
        match within(select_items(p, i, Seq::empty(), into_ok), i + 1, p) {
            Err(e) => Err(e),
            Ok((items, i)) => {
                match within(select_into_of_select(p, i, into_ok), i, p) {
                    Err(e) => Err(e),
                    Ok((into, i)) => {
                        match within(table_query(p, i, distinct, items), i + 1, p) {
                            Err(e) => Err(e),
                            Ok((q, i)) => {
                                Ok(((q, into), i))
                            },
                        }
                    },
                }
            },
        }
    }
}

/// A query from FROM on.
pub open spec fn table_query(p: Source, i: int, distinct: bool, items: Seq<tree::SelectItem>) -> Result<(tree::Query, int), Failure>
    decreases p.lex.len() - i, 23int,
{
    if !is_kw(p, i, "FROM"@) {
        Err(no_from())
    } else {
        let i = i + 1;
        if !is_ident(p, i) {
            Err(error::failure(903, "invalid table name"@))
        } else {
            if p.plain && name_at(p, i) != "DUAL"@ {
                Err(error::table_not_found())
            } else {
                match within(table_name(p, i), i + 1, p) {
                    Err(e) => Err(e),
                    Ok((name, i)) => {
                        match within(alias_clause(p, i), i, p) {
                            Err(e) => Err(e),
                            Ok((alias, i)) => {
                                match within(where_clause(p, i), i, p) {
                                    Err(e) => Err(e),
                                    Ok((where_, i)) => {
                                        Ok((one_table(distinct, items, name, alias, where_), i))
                                    },
                                }
                            },
                        }
                    },
                }
            }
        }
    }
}

pub open spec fn select_items(p: Source, i: int, acc: Seq<tree::SelectItem>, into_ok: bool) -> Result<(Seq<tree::SelectItem>, int), Failure>
    decreases p.lex.len() - i, 23int,
{
    match within(select_item(p, i, into_ok), i + 1, p) {
        Err(e) => Err(e),
        Ok((item, i)) => {
            if !is_sym(p, i, ","@) {
                Ok((acc.push(item), i))
            } else {
                let i = i + 1;
                select_items(p, i, acc.push(item), into_ok)
            }
        },
    }
}

/// One column of a query.
pub open spec fn select_item(p: Source, i: int, into_ok: bool) -> Result<(tree::SelectItem, int), Failure>
    decreases p.lex.len() - i, 22int,
{
    if is_sym(p, i, "*"@) {
        let i = i + 1;
        Ok((tree::SelectItem::Star, i))
    } else if !p.plain && is_ident(p, i) && is_sym(p, i + 1, "."@) && is_sym(p, i + 2, "*"@) {
        let name = name_at(p, i);
        let i = i + 3;
        Ok((tree::SelectItem::QualifiedStar(name), i))
    } else {
        let start = i;
        match within(item_expr(p, i), i + 1, p) {
            Err(e) => Err(e),
            Ok((expr, i)) => {
                let name = column_name(p, start, i);
                if is_kw(p, i, "AS"@) {
                    if !is_ident(p, i + 1) {
                        Err(no_from())
                    } else {
                        match within(ident(p, i + 1), i + 2, p) {
                            Err(e) => Err(e),
                            Ok((name, i)) => {
                                Ok((tree::SelectItem::Expr { expr, name }, i))
                            },
                        }
                    }
                } else if is_ident(p, i) && !is_kw(p, i, "FROM"@) && !(into_ok && is_kw(p, i, "INTO"@)) {
                    match within(ident(p, i), i + 1, p) {
                        Err(e) => Err(e),
                        Ok((name, i)) => {
                            Ok((tree::SelectItem::Expr { expr, name }, i))
                        },
                    }
                } else {
                    Ok((tree::SelectItem::Expr { expr, name }, i))
                }
            },
        }
    }
}

pub open spec fn item_expr(p: Source, i: int) -> Result<(tree::Expr, int), Failure>
    decreases p.lex.len() - i, 20int,
{
    if p.plain {
        within(additive(p, i), i + 1, p)
    } else {
        within(expr(p, i), i + 1, p)
    }
}

pub open spec fn target_list(p: Source, i: int, acc: Seq<tree::Expr>) -> Result<(Seq<tree::Expr>, int), Failure>
    decreases p.lex.len() - i, 9int,
{
    match within(target_expr(p, i), i + 1, p) {
        Err(e) => Err(e),
        Ok((e, i)) => {
            if !is_sym(p, i, ","@) {
                Ok((acc.push(e), i))
            } else {
                let i = i + 1;
                target_list(p, i, acc.push(e))
            }
        },
    }
}

/// Where a value goes: a bind, a variable or a field.
pub open spec fn target_expr(p: Source, i: int) -> Result<(tree::Expr, int), Failure>
    decreases p.lex.len() - i, 8int,
{
    if is_bind(p, i) {
        let n = bind_at(p, i);
        let i = i + 1;
        Ok((tree::Expr::Bind(n), i))
    } else {
        match within(dotted_name(p, i), i + 1, p) {
            Err(e) => Err(e),
            Ok((name, i)) => {
                Ok((column_of(name), i))
            },
        }
    }
}

/// `[RETURNING expressions INTO targets]`.
pub open spec fn returning(p: Source, i: int) -> Result<(Option<tree::Returning>, int), Failure>
    decreases p.lex.len() - i, 21int,
{
    if !(is_kw(p, i, "RETURNING"@) || is_kw(p, i, "RETURN"@)) {
        Ok((None, i))
    } else {
        match within(expr_list(p, i + 1, Seq::empty()), i + 2, p) {
            Err(e) => Err(e),
            Ok((exprs, i)) => {
                if !is_kw(p, i, "INTO"@) {
                    Err(error::failure(905, "missing keyword"@))
                } else {
                    let i = i + 1;
                    match within(target_list(p, i, Seq::empty()), i + 1, p) {
                        Err(e) => Err(e),
                        Ok((into, i)) => {
                            Ok((Some(tree::Returning { exprs, into }), i))
                        },
                    }
                }
            },
        }
    }
}

pub open spec fn insert(p: Source, i: int) -> Result<(tree::Insert, int), Failure>
    decreases p.lex.len() - i, 22int,
{
    if !is_kw(p, i, "INSERT"@) {
        Err(error::failure(905, "missing keyword"@))
    } else {
        let i = i + 1;
        if !is_kw(p, i, "INTO"@) {
            Err(error::failure(905, "missing keyword"@))
        } else {
            let i = i + 1;
            match within(object_name(p, i), i + 1, p) {
                Err(e) => Err(e),
                Ok((table, i)) => {
                    match within(column_list(p, i), i, p) {
                        Err(e) => Err(e),
                        Ok((columns, i)) => {
                            match within(insert_source(p, i), i + 1, p) {
                                Err(e) => Err(e),
                                Ok((source, i)) => {
                                    match within(returning(p, i), i, p) {
                                        Err(e) => Err(e),
                                        Ok((returning, i)) => {
                                            Ok((tree::Insert { table, columns, source, returning }, i))
                                        },
                                    }
                                },
                            }
                        },
                    }
                },
            }
        }
    }
}

/// The rows that are inserted: a query, or VALUES with a list.
pub open spec fn insert_source(p: Source, i: int) -> Result<(tree::InsertSource, int), Failure>
    decreases p.lex.len() - i, 26int,
{
    if is_kw(p, i, "SELECT"@) {
        match within(query(p, i), i + 1, p) {
            Err(e) => Err(e),
            Ok((q, i)) => {
                Ok((tree::InsertSource::Query(Box::new(q)), i))
            },
        }
    } else {
        if !is_kw(p, i, "VALUES"@) {
            Err(error::failure(926, "missing VALUES keyword"@))
        } else {
            let i = i + 1;
            if !is_sym(p, i, "("@) {
                Err(error::failure(906, "missing left parenthesis"@))
            } else {
                let i = i + 1;
                match within(expr_list(p, i, Seq::empty()), i + 1, p) {
                    Err(e) => Err(e),
                    Ok((values, i)) => {
                        if !is_sym(p, i, ")"@) {
                            Err(error::failure(907, "missing right parenthesis"@))
                        } else {
                            let i = i + 1;
                            Ok((tree::InsertSource::Values(values), i))
                        }
                    },
                }
            }
        }
    }
}

/// `[(columns)]`
pub open spec fn column_list(p: Source, i: int) -> Result<(Option<Seq<Seq<char>>>, int), Failure>
    decreases p.lex.len() - i, 2int,
{
    if !is_sym(p, i, "("@) {
        Ok((None, i))
    } else {
        match within(name_list(p, i + 1, Seq::empty()), i + 2, p) {
            Err(e) => Err(e),
            Ok((names, i)) => {
                if !is_sym(p, i, ")"@) {
                    Err(error::failure(907, "missing right parenthesis"@))
                } else {
                    let i = i + 1;
                    Ok((Some(names), i))
                }
            },
        }
    }
}

/// Names with commas between them.
pub open spec fn name_list(p: Source, i: int, acc: Seq<Seq<char>>) -> Result<(Seq<Seq<char>>, int), Failure>
    decreases p.lex.len() - i, 1int,
{
    match within(ident(p, i), i + 1, p) {
        Err(e) => Err(e),
        Ok((n, i)) => {
            if !is_sym(p, i, ","@) {
                Ok((acc.push(n), i))
            } else {
                let i = i + 1;
                name_list(p, i, acc.push(n))
            }
        },
    }
}

pub open spec fn update(p: Source, i: int) -> Result<(tree::Update, int), Failure>
    decreases p.lex.len() - i, 22int,
{
    if !is_kw(p, i, "UPDATE"@) {
        Err(error::failure(905, "missing keyword"@))
    } else {
        let i = i + 1;
        match within(object_name(p, i), i + 1, p) {
            Err(e) => Err(e),
            Ok((table, i)) => {
                match within(alias_clause_of_update(p, i), i, p) {
                    Err(e) => Err(e),
                    Ok((alias, i)) => {
                        if !is_kw(p, i, "SET"@) {
                            Err(error::failure(971, "missing SET keyword"@))
                        } else {
                            let i = i + 1;
                            match within(assignments(p, i, Seq::empty()), i + 1, p) {
                                Err(e) => Err(e),
                                Ok((assignments, i)) => {
                                    match within(where_clause_of_update(p, i), i, p) {
                                        Err(e) => Err(e),
                                        Ok((where_, i)) => {
                                            match within(returning(p, i), i, p) {
                                                Err(e) => Err(e),
                                                Ok((returning, i)) => {
                                                    Ok((tree::Update { table, alias, assignments, where_, returning }, i))
                                                },
                                            }
                                        },
                                    }
                                },
                            }
                        }
                    },
                }
            },
        }
    }
}

pub open spec fn assignments(p: Source, i: int, acc: Seq<(Seq<char>, tree::Expr)>) -> Result<(Seq<(Seq<char>, tree::Expr)>, int), Failure>
    decreases p.lex.len() - i, 21int,
{
    match within(dotted_name(p, i), i + 1, p) {
        Err(e) => Err(e),
        Ok((name, i)) => {
            if !is_sym(p, i, "="@) {
                Err(error::failure(927, "missing equal sign"@))
            } else {
                let i = i + 1;
                match within(expr(p, i), i + 1, p) {
                    Err(e) => Err(e),
                    Ok((e, i)) => {
                        let column = last_part(name);
                        if !is_sym(p, i, ","@) {
                            Ok((acc.push((column, e)), i))
                        } else {
                            let i = i + 1;
                            assignments(p, i, acc.push((column, e)))
                        }
                    },
                }
            }
        },
    }
}

pub open spec fn delete(p: Source, i: int) -> Result<(tree::Delete, int), Failure>
    decreases p.lex.len() - i, 22int,
{
    if !is_kw(p, i, "DELETE"@) {
        Err(error::failure(905, "missing keyword"@))
    } else {
        let i = i + 1;
        let i = if is_kw(p, i, "FROM"@) {
            i + 1
        } else {
            i
        };
        match within(object_name(p, i), i + 1, p) {
            Err(e) => Err(e),
            Ok((table, i)) => {
                match within(alias_clause_of_update(p, i), i, p) {
                    Err(e) => Err(e),
                    Ok((alias, i)) => {
                        match within(where_clause_of_update(p, i), i, p) {
                            Err(e) => Err(e),
                            Ok((where_, i)) => {
                                match within(returning(p, i), i, p) {
                                    Err(e) => Err(e),
                                    Ok((returning, i)) => {
                                        Ok((tree::Delete { table, alias, where_, returning }, i))
                                    },
                                }
                            },
                        }
                    },
                }
            },
        }
    }
}

/// A procedure or function, behind CREATE.
pub open spec fn create_routine(p: Source, i: int) -> Result<(tree::Statement, int), Failure>
    decreases p.lex.len() - i, 44int,
{
    let or_replace = is_kw(p, i, "OR"@) && is_kw(p, i + 1, "REPLACE"@);
    let i = if or_replace {
        i + 1
    } else {
        i
    };
    let i = if or_replace {
        i + 1
    } else {
        i
    };
    match within(blocks::routine(p, i), i + 1, p) {
        Err(e) => Err(e),
        Ok((r, i)) => {
            Ok((tree::Statement::CreateRoutine { routine: Box::new(r), or_replace }, i))
        },
    }
}

/// The procedure or function that goes, behind DROP.
pub open spec fn drop_routine(p: Source, i: int) -> Result<(tree::Statement, int), Failure>
    decreases p.lex.len() - i, 10int,
{
    let function = is_kw(p, i, "FUNCTION"@);
    let i = if function {
        i + 1
    } else {
        i
    };
    let i = if !function && is_kw(p, i, "PROCEDURE"@) {
        i + 1
    } else {
        i
    };
    match within(object_name(p, i), i + 1, p) {
        Err(e) => Err(e),
        Ok((name, i)) => {
            Ok((tree::Statement::DropRoutine { name, function }, i))
        },
    }
}

/// A statement that may stand in a block: a query, DML, COMMIT or ROLLBACK.
pub open spec fn statement(p: Source, i: int) -> Result<(tree::Statement, int), Failure>
    decreases p.lex.len() - i, 30int,
{
    if is_kw(p, i, "SELECT"@) {
        match within(query(p, i), i + 1, p) {
            Err(e) => Err(e),
            Ok((q, i)) => {
                Ok((tree::Statement::Query(q), i))
            },
        }
    } else {
        within(dml(p, i), i + 1, p)
    }
}

/// DML, COMMIT or ROLLBACK.
pub open spec fn dml(p: Source, i: int) -> Result<(tree::Statement, int), Failure>
    decreases p.lex.len() - i, 25int,
{
    if is_kw(p, i, "INSERT"@) {
        match within(insert(p, i), i + 1, p) {
            Err(e) => Err(e),
            Ok((s, i)) => {
                Ok((tree::Statement::Insert(s), i))
            },
        }
    } else if is_kw(p, i, "UPDATE"@) {
        match within(update(p, i), i + 1, p) {
            Err(e) => Err(e),
            Ok((s, i)) => {
                Ok((tree::Statement::Update(s), i))
            },
        }
    } else if is_kw(p, i, "DELETE"@) {
        match within(delete(p, i), i + 1, p) {
            Err(e) => Err(e),
            Ok((s, i)) => {
                Ok((tree::Statement::Delete(s), i))
            },
        }
    } else if is_kw(p, i, "COMMIT"@) {
        let i = i + 1;
        let i = if is_kw(p, i, "WORK"@) {
            i + 1
        } else {
            i
        };
        Ok((tree::Statement::Commit, i))
    } else if is_kw(p, i, "ROLLBACK"@) {
        let i = i + 1;
        let i = if is_kw(p, i, "WORK"@) {
            i + 1
        } else {
            i
        };
        Ok((tree::Statement::Rollback, i))
    } else {
        Err(error::failure(900, "invalid SQL statement"@))
    }
}

/// A statement.
pub open spec fn top_statement(p: Source, i: int) -> Result<(tree::Statement, int), Failure>
    decreases p.lex.len() - i, 46int,
{
    if is_kw(p, i, "BEGIN"@) || is_kw(p, i, "DECLARE"@) || is_sym(p, i, "<<"@) {
        within(block_statement(p, i), i + 1, p)
    } else if is_kw(p, i, "CALL"@) {
        match within(blocks::call_statement(p, i), i + 1, p) {
            Err(e) => Err(e),
            Ok((b, i)) => {
                Ok((tree::Statement::Block(b), i))
            },
        }
    } else if is_kw(p, i, "CREATE"@) && (is_kw(p, i + 1, "PROCEDURE"@) || is_kw(p, i + 1, "FUNCTION"@) || (is_kw(p, i + 1, "OR"@) && is_kw(p, i + 2, "REPLACE"@))) {
        within(create_statement(p, i + 1), i + 2, p)
    } else if is_kw(p, i, "DROP"@) && (is_kw(p, i + 1, "PROCEDURE"@) || is_kw(p, i + 1, "FUNCTION"@)) {
        within(drop_routine(p, i + 1), i + 2, p)
    } else if is_kw(p, i, "CREATE"@) && (is_kw(p, i + 1, "INDEX"@) || (is_kw(p, i + 1, "UNIQUE"@) && is_kw(p, i + 2, "INDEX"@))) {
        within(tables::create_index(p, i + 1), i + 2, p)
    } else if is_kw(p, i, "CREATE"@) && is_kw(p, i + 1, "TABLE"@) {
        match within(tables::create_table(p, i + 2), i + 3, p) {
            Err(e) => Err(e),
            Ok((t, i)) => {
                Ok((tree::Statement::CreateTable(t), i))
            },
        }
    } else {
        within(ddl(p, i), i + 1, p)
    }
}

/// A block with its semicolon.
pub open spec fn block_statement(p: Source, i: int) -> Result<(tree::Statement, int), Failure>
    decreases p.lex.len() - i, 44int,
{
    match within(blocks::block(p, i), i + 1, p) {
        Err(e) => Err(e),
        Ok((b, i)) => {
            if !is_sym(p, i, ";"@) {
                Err(expected(";"@))
            } else {
                let i = i + 1;
                Ok((tree::Statement::Block(b), i))
            }
        },
    }
}

/// A procedure or function with its semicolon, behind CREATE.
pub open spec fn create_statement(p: Source, i: int) -> Result<(tree::Statement, int), Failure>
    decreases p.lex.len() - i, 45int,
{
    match within(create_routine(p, i), i + 1, p) {
        Err(e) => Err(e),
        Ok((s, i)) => {
            if !is_sym(p, i, ";"@) {
                Err(expected(";"@))
            } else {
                let i = i + 1;
                Ok((s, i))
            }
        },
    }
}

/// A statement that defines, or any other.
pub open spec fn ddl(p: Source, i: int) -> Result<(tree::Statement, int), Failure>
    decreases p.lex.len() - i, 44int,
{
    if is_kw(p, i, "TRUNCATE"@) {
        let i = i + 1;
        if !is_kw(p, i, "TABLE"@) {
            Err(error::failure(905, "missing keyword"@))
        } else {
            let i = i + 1;
            match within(object_name(p, i), i + 1, p) {
                Err(e) => Err(e),
                Ok((name, i)) => {
                    Ok((tree::Statement::Truncate { name }, i))
                },
            }
        }
    } else if is_kw(p, i, "DROP"@) && is_kw(p, i + 1, "TABLE"@) {
        let i = i + 2;
        match within(object_name(p, i), i + 1, p) {
            Err(e) => Err(e),
            Ok((name, i)) => {
                Ok((tree::Statement::DropTable { name }, i))
            },
        }
    } else if is_kw(p, i, "DROP"@) && is_kw(p, i + 1, "INDEX"@) {
        let i = i + 2;
        match within(object_name(p, i), i + 1, p) {
            Err(e) => Err(e),
            Ok((name, i)) => {
                Ok((tree::Statement::DropIndex { name }, i))
            },
        }
    } else if is_kw(p, i, "DROP"@) && is_kw(p, i + 1, "SEQUENCE"@) {
        let i = i + 2;
        match within(object_name(p, i), i + 1, p) {
            Err(e) => Err(e),
            Ok((name, i)) => {
                Ok((tree::Statement::DropSequence { name }, i))
            },
        }
    } else if is_kw(p, i, "ALTER"@) && is_kw(p, i + 1, "SESSION"@) {
        let i = i + 2;
        if !is_kw(p, i, "SET"@) {
            Err(error::failure(905, "missing keyword"@))
        } else {
            let i = i + 1;
            match within(ident(p, i), i + 1, p) {
                Err(e) => Err(e),
                Ok((name, i)) => {
                    if !is_sym(p, i, "="@) {
                        Err(error::failure(927, "missing equal sign"@))
                    } else {
                        let i = i + 1;
                        match within(setting(p, i), i + 1, p) {
                            Err(e) => Err(e),
                            Ok((value, i)) => {
                                Ok((tree::Statement::AlterSession { name, value }, i))
                            },
                        }
                    }
                },
            }
        }
    } else {
        within(statement(p, i), i + 1, p)
    }
}

pub open spec fn table_name(p: Source, i: int) -> Result<(Seq<char>, int), Failure>
    decreases p.lex.len() - i, 4int,
{
    if p.plain {
        within(ident(p, i), i + 1, p)
    } else {
        within(object_name(p, i), i + 1, p)
    }
}

/// The name of an object; a schema in front of it is ignored.
pub open spec fn object_name(p: Source, i: int) -> Result<(Seq<char>, int), Failure>
    decreases p.lex.len() - i, 3int,
{
    match within(dotted_name(p, i), i + 1, p) {
        Err(e) => Err(e),
        Ok((name, i)) => {
            Ok((last_part(name), i))
        },
    }
}

pub open spec fn exists_query(p: Source, i: int) -> Result<(tree::Expr, int), Failure>
    decreases p.lex.len() - i, 26int,
{
    match within(query(p, i), i + 1, p) {
        Err(e) => Err(e),
        Ok((q, i)) => {
            if !is_sym(p, i, ")"@) {
                Err(error::failure(907, "missing right parenthesis"@))
            } else {
                let i = i + 1;
                Ok((tree::Expr::Exists(Box::new(q)), i))
            }
        },
    }
}

/// What stands in brackets, behind the opening one.
pub open spec fn bracketed(p: Source, i: int) -> Result<(tree::Expr, int), Failure>
    decreases p.lex.len() - i, 26int,
{
    if p.plain {
        match within(additive(p, i), i + 1, p) {
            Err(e) => Err(e),
            Ok((e, i)) => {
                if !is_sym(p, i, ")"@) {
                    Err(error::failure(907, "missing right parenthesis"@))
                } else {
                    let i = i + 1;
                    Ok((e, i))
                }
            },
        }
    } else if is_kw(p, i, "SELECT"@) {
        match within(query(p, i), i + 1, p) {
            Err(e) => Err(e),
            Ok((q, i)) => {
                if !is_sym(p, i, ")"@) {
                    Err(error::failure(907, "missing right parenthesis"@))
                } else {
                    let i = i + 1;
                    Ok((tree::Expr::Subquery(Box::new(q)), i))
                }
            },
        }
    } else {
        match within(expr(p, i), i + 1, p) {
            Err(e) => Err(e),
            Ok((e, i)) => {
                if !is_sym(p, i, ")"@) {
                    Err(error::failure(907, "missing right parenthesis"@))
                } else {
                    let i = i + 1;
                    Ok((e, i))
                }
            },
        }
    }
}

/// A column, a variable, an attribute of a cursor or a call.
pub open spec fn named(p: Source, i: int) -> Result<(tree::Expr, int), Failure>
    decreases p.lex.len() - i, 6int,
{
    if is_ident(p, i) && is_sym(p, i + 1, "%"@) && is_ident(p, i + 2) {
        let table = Some(name_at(p, i) + seq!['%']);
        let name = name_at(p, i + 2);
        let i = i + 3;
        Ok((tree::Expr::Column { table, name }, i))
    } else {
        match within(dotted_name(p, i), i + 1, p) {
            Err(e) => Err(e),
            Ok((name, i)) => {
                if is_sym(p, i, "("@) {
                    within(function(p, i + 1, name), i + 2, p)
                } else {
                    Ok((column_of(name), i))
                }
            },
        }
    }
}

pub open spec fn escape_clause(p: Source, i: int) -> Result<(Option<tree::Expr>, int), Failure>
    decreases p.lex.len() - i, 0int,
{
    if !is_kw(p, i, "ESCAPE"@) {
        Ok((None, i))
    } else {
        match within(additive(p, i + 1), i + 2, p) {
            Err(e) => Err(e),
            Ok((v, i)) => {
                Ok((Some(v), i))
            },
        }
    }
}

pub open spec fn case_expr_operand(p: Source, i: int) -> Result<(Option<tree::Expr>, int), Failure>
    decreases p.lex.len() - i, 21int,
{
    if !!is_kw(p, i, "WHEN"@) {
        Ok((None, i))
    } else {
        within(case_operand(p, i), i + 1, p)
    }
}

pub open spec fn else_clause(p: Source, i: int) -> Result<(Option<tree::Expr>, int), Failure>
    decreases p.lex.len() - i, 0int,
{
    if !is_kw(p, i, "ELSE"@) {
        Ok((None, i))
    } else {
        match within(expr(p, i + 1), i + 2, p) {
            Err(e) => Err(e),
            Ok((v, i)) => {
                Ok((Some(v), i))
            },
        }
    }
}

pub open spec fn select_into_of_select(p: Source, i: int, into_ok: bool) -> Result<(Option<Seq<tree::Expr>>, int), Failure>
    decreases p.lex.len() - i, 0int,
{
    if !(into_ok && is_kw(p, i, "INTO"@)) {
        Ok((None, i))
    } else {
        match within(target_list(p, i + 1, Seq::empty()), i + 2, p) {
            Err(e) => Err(e),
            Ok((v, i)) => {
                Ok((Some(v), i))
            },
        }
    }
}

pub open spec fn alias_clause(p: Source, i: int) -> Result<(Option<Seq<char>>, int), Failure>
    decreases p.lex.len() - i, 0int,
{
    if !(!p.plain && is_alias(p, i)) {
        Ok((None, i))
    } else {
        match within(ident(p, i), i + 1, p) {
            Err(e) => Err(e),
            Ok((v, i)) => {
                Ok((Some(v), i))
            },
        }
    }
}

pub open spec fn where_clause(p: Source, i: int) -> Result<(Option<tree::Expr>, int), Failure>
    decreases p.lex.len() - i, 0int,
{
    if !(!p.plain && is_kw(p, i, "WHERE"@)) {
        Ok((None, i))
    } else {
        match within(expr(p, i + 1), i + 2, p) {
            Err(e) => Err(e),
            Ok((v, i)) => {
                Ok((Some(v), i))
            },
        }
    }
}

pub open spec fn alias_clause_of_update(p: Source, i: int) -> Result<(Option<Seq<char>>, int), Failure>
    decreases p.lex.len() - i, 0int,
{
    if !is_alias(p, i) {
        Ok((None, i))
    } else {
        match within(ident(p, i), i + 1, p) {
            Err(e) => Err(e),
            Ok((v, i)) => {
                Ok((Some(v), i))
            },
        }
    }
}

pub open spec fn where_clause_of_update(p: Source, i: int) -> Result<(Option<tree::Expr>, int), Failure>
    decreases p.lex.len() - i, 0int,
{
    if !is_kw(p, i, "WHERE"@) {
        Ok((None, i))
    } else {
        match within(expr(p, i + 1), i + 2, p) {
            Err(e) => Err(e),
            Ok((v, i)) => {
                Ok((Some(v), i))
            },
        }
    }
}

impl<'a> Parser<'a> {
    pub(crate) fn is_bind(&self, i: usize, ahead: usize) -> (r: bool)
        requires
            i <= self.tokens@.len(),
        ensures
            r == is_bind(self.source(), i + ahead),
    {
        proof {
            reveal(Parser::source);
        }
        if ahead >= self.tokens.len() - i {
            return false;
        }
        match &self.tokens[i + ahead].tok {
            Tok::Bind(_) => true,
            _ => false,
        }
    }

    pub(crate) fn is_word(&self, i: usize) -> (r: bool)
        requires
            i <= self.tokens@.len(),
        ensures
            r == is_word(self.source(), i as int),
    {
        proof {
            reveal(Parser::source);
        }
        if i >= self.tokens.len() {
            return false;
        }
        match &self.tokens[i].tok {
            Tok::Ident(_) => true,
            _ => false,
        }
    }

    /// The name that stands at a place, or nothing.
    pub(crate) fn name(&self, i: usize) -> (r: String)
        requires
            i < self.tokens@.len(),
        ensures
            r@ == name_at(self.source(), i as int),
    {
        proof {
            reveal(Parser::source);
        }
        match &self.tokens[i].tok {
            Tok::Ident(s) => s.clone(),
            Tok::QuotedIdent(s) => s.clone(),
            _ => {
                let s = String::new();
                assert(s@ =~= Seq::<char>::empty());
                s
            },
        }
    }

    fn name_and_percent(&self, i: usize) -> (r: String)
        requires
            i < self.tokens@.len(),
        ensures
            r@ == name_at(self.source(), i as int) + seq!['%'],
    {
        let mut s = self.name(i);
        s.push('%');
        assert(s@ =~= name_at(self.source(), i as int) + seq!['%']);
        s
    }

    fn named_dual(&self, i: usize) -> (r: bool)
        requires
            i < self.tokens@.len(),
        ensures
            r == (name_at(self.source(), i as int) == "DUAL"@),
    {
        text::same(&self.name(i), "DUAL")
    }

    pub(crate) fn integer_type_here(&self, i: usize) -> (r: bool)
        requires
            i < self.tokens@.len(),
        ensures
            r == is_integer_type(name_at(self.source(), i as int)),
    {
        let w = self.name(i);
        text::same(&w, "PLS_INTEGER") || text::same(&w, "BINARY_INTEGER") || text::same(
            &w,
            "NATURAL",
        ) || text::same(&w, "NATURALN") || text::same(&w, "POSITIVE") || text::same(
            &w,
            "POSITIVEN",
        ) || text::same(&w, "SIMPLE_INTEGER") || text::same(&w, "SIGNTYPE")
    }

    /// The value in ALTER SESSION.
    fn setting(&self, i: usize) -> (r: Result<(String, usize), OraError>)
        requires
            self.inv(),
            i <= self.tokens@.len(),
        ensures
            match r {
                Ok((v, j)) => setting(self.source(), i as int) == Ok::<(Seq<char>, int), Failure>(
                    (v@, j as int),
                ) && i + 1 <= j <= self.tokens@.len(),
                Err(e) => setting(self.source(), i as int) == Err::<(Seq<char>, int), Failure>(e@),
            },
    {
        proof {
            reveal(Parser::source);
        }
        if i < self.tokens.len() {
            match &self.tokens[i].tok {
                Tok::Str(s) => {
                    return Ok((s.clone(), i + 1));
                },
                Tok::Ident(s) => {
                    return Ok((s.clone(), i + 1));
                },
                Tok::Number(s) => {
                    return Ok((s.clone(), i + 1));
                },
                _ => {},
            }
        }
        Err(OraError::new(922, "missing or invalid option"))
    }

    fn date(&self, i: usize) -> (r: Option<Expr>)
        requires
            self.inv(),
        ensures
            match r {
                Some(e) => date_at(self.source(), i as int) == Some(e@) && i < self.tokens@.len(),
                None => date_at(self.source(), i as int) is None,
            },
    {
        proof {
            reveal(Parser::source);
            reveal(date_at);
        }
        if i >= self.tokens.len() {
            return None;
        }
        match &self.tokens[i].tok {
            Tok::Str(s) => {
                let day = Expr::Literal(Value::varchar(s));
                let model = Expr::Literal(Value::varchar("YYYY-MM-DD"));
                let ghost shown = seq![day@, model@];
                let mut args: Vec<Expr> = Vec::new();
                args.push(day);
                args.push(model);
                assert(ast::exprs_tree(args) =~= shown);
                Some(Expr::Function { name: "TO_DATE".to_string(), args, distinct: false })
            },
            _ => None,
        }
    }

    fn primary(&self, i: usize) -> (r: Result<(Expr, usize), OraError>)
        requires
            self.inv(),
            i <= self.tokens@.len(),
        ensures
            match r {
                Ok((v, j)) => primary(self.source(), i as int) == Ok::<(tree::Expr, int), Failure>(
                    (v@, j as int),
                ) && i + 1 <= j <= self.tokens@.len(),
                Err(e) => primary(self.source(), i as int) == Err::<(tree::Expr, int), Failure>(e@),
            },
        decreases self.tokens@.len() - i, 7int,
    {
        proof {
            reveal(Parser::source);
        }
        if i >= self.tokens.len() {
            return Err(OraError::new(936, "missing expression"));
        }
        match &self.tokens[i].tok {
            Tok::Number(n) => match Number::parse(n) {
                Some(d) => Ok((Expr::Literal(Value::Number(d)), i + 1)),
                None => Err(OraError::new(1722, "invalid number")),
            },
            Tok::Str(s) => Ok((Expr::Literal(Value::varchar(s)), i + 1)),
            Tok::Bind(_) => Ok((Expr::Bind(self.bind(i)), i + 1)),
            Tok::Symbol(s) => if text::same(s, "(") {
                self.bracketed(i + 1)
            } else {
                Err(OraError::new(936, "missing expression"))
            },
            Tok::QuotedIdent(s) => if self.plain {
                Ok((Expr::Column { table: None, name: s.clone() }, i + 1))
            } else {
                self.named(i)
            },
            Tok::Ident(s) => if text::same(s, "NULL") {
                Ok((Expr::Literal(Value::Null), i + 1))
            } else if text::same(s, "FROM") {
                Err(OraError::new(936, "missing expression"))
            } else if self.plain {
                Ok((Expr::Column { table: None, name: s.clone() }, i + 1))
            } else if text::same(s, "TRUE") {
                Ok((Expr::Literal(Value::Boolean(true)), i + 1))
            } else if text::same(s, "FALSE") {
                Ok((Expr::Literal(Value::Boolean(false)), i + 1))
            } else if text::same(s, "CASE") {
                self.case_expr(i + 1)
            } else if text::same(s, "ROWNUM") {
                Ok((Expr::RowNum, i + 1))
            } else if text::same(s, "EXISTS") && self.is_sym(i, 1, "(") {
                self.exists_query(i + 2)
            } else {
                if text::same(s, "DATE") {
                    match self.date(i + 1) {
                        Some(e) => {
                            return Ok((e, i + 2));
                        },
                        None => {},
                    }
                }
                self.named(i)
            },
        }
    }

    /// An expression: conditions under OR.
    #[verifier::spinoff_prover]
    #[verifier::rlimit(100)]
    pub(crate) fn expr(&self, i: usize) -> (r: Result<(Expr, usize), OraError>)
        requires
            self.inv(),
            i <= self.tokens@.len(),
        ensures
            match r {
                Ok((v, j)) => expr(self.source(), i as int) == Ok::<(tree::Expr, int), Failure>((ast::expr_tree(v), j as int)) && i + 1 <= j <= self.tokens@.len(),
                Err(e) => expr(self.source(), i as int) == Err::<(tree::Expr, int), Failure>(e@),
            },
        decreases self.tokens@.len() - i, 19int,
    {
        let (left, i) = self.and_expr(i)?;
        self.or_rest(i, left)
    }

    #[verifier::spinoff_prover]
    #[verifier::rlimit(100)]
    #[verifier::loop_isolation(false)]
    pub(crate) fn or_rest(&self, i: usize, left: Expr) -> (r: Result<(Expr, usize), OraError>)
        requires
            self.inv(),
            i <= self.tokens@.len(),
        ensures
            match r {
                Ok((v, j)) => or_rest(self.source(), i as int, ast::expr_tree(left)) == Ok::<(tree::Expr, int), Failure>((ast::expr_tree(v), j as int)) && i <= j <= self.tokens@.len(),
                Err(e) => or_rest(self.source(), i as int, ast::expr_tree(left)) == Err::<(tree::Expr, int), Failure>(e@),
            },
        decreases self.tokens@.len() - i, 18int,
    {
        let mut left = left;
        let mut pos: usize = i;
        let ghost due = or_rest(self.source(), i as int, ast::expr_tree(left));
        loop
            invariant
                self.inv(),
                i <= pos <= self.tokens@.len(),
                due == or_rest(self.source(), pos as int, ast::expr_tree(left)),
            decreases self.tokens@.len() - pos,
        {
            let i: usize = pos;
            if !self.is_kw(i, 0, "OR") {
                return Ok((left, i));
            }
            let (right, i) = self.and_expr(i + 1)?;
            left = Expr::Binary(BinaryOp::Or, Box::new(left), Box::new(right));
            pos = i;
        }
    }

    #[verifier::spinoff_prover]
    #[verifier::rlimit(100)]
    pub(crate) fn and_expr(&self, i: usize) -> (r: Result<(Expr, usize), OraError>)
        requires
            self.inv(),
            i <= self.tokens@.len(),
        ensures
            match r {
                Ok((v, j)) => and_expr(self.source(), i as int) == Ok::<(tree::Expr, int), Failure>((ast::expr_tree(v), j as int)) && i + 1 <= j <= self.tokens@.len(),
                Err(e) => and_expr(self.source(), i as int) == Err::<(tree::Expr, int), Failure>(e@),
            },
        decreases self.tokens@.len() - i, 17int,
    {
        let (left, i) = self.not_expr(i)?;
        self.and_rest(i, left)
    }

    #[verifier::spinoff_prover]
    #[verifier::rlimit(100)]
    #[verifier::loop_isolation(false)]
    pub(crate) fn and_rest(&self, i: usize, left: Expr) -> (r: Result<(Expr, usize), OraError>)
        requires
            self.inv(),
            i <= self.tokens@.len(),
        ensures
            match r {
                Ok((v, j)) => and_rest(self.source(), i as int, ast::expr_tree(left)) == Ok::<(tree::Expr, int), Failure>((ast::expr_tree(v), j as int)) && i <= j <= self.tokens@.len(),
                Err(e) => and_rest(self.source(), i as int, ast::expr_tree(left)) == Err::<(tree::Expr, int), Failure>(e@),
            },
        decreases self.tokens@.len() - i, 16int,
    {
        let mut left = left;
        let mut pos: usize = i;
        let ghost due = and_rest(self.source(), i as int, ast::expr_tree(left));
        loop
            invariant
                self.inv(),
                i <= pos <= self.tokens@.len(),
                due == and_rest(self.source(), pos as int, ast::expr_tree(left)),
            decreases self.tokens@.len() - pos,
        {
            let i: usize = pos;
            if !self.is_kw(i, 0, "AND") {
                return Ok((left, i));
            }
            let (right, i) = self.not_expr(i + 1)?;
            left = Expr::Binary(BinaryOp::And, Box::new(left), Box::new(right));
            pos = i;
        }
    }

    #[verifier::spinoff_prover]
    #[verifier::rlimit(100)]
    pub(crate) fn not_expr(&self, i: usize) -> (r: Result<(Expr, usize), OraError>)
        requires
            self.inv(),
            i <= self.tokens@.len(),
        ensures
            match r {
                Ok((v, j)) => not_expr(self.source(), i as int) == Ok::<(tree::Expr, int), Failure>((ast::expr_tree(v), j as int)) && i + 1 <= j <= self.tokens@.len(),
                Err(e) => not_expr(self.source(), i as int) == Err::<(tree::Expr, int), Failure>(e@),
            },
        decreases self.tokens@.len() - i, 15int,
    {
        if self.is_kw(i, 0, "NOT") {
            let (e, i) = self.not_expr(i + 1)?;
            return Ok((Expr::Not(Box::new(e)), i));
        }
        self.predicate(i)
    }

    /// A sum, or a condition on one.
    #[verifier::spinoff_prover]
    #[verifier::rlimit(100)]
    pub(crate) fn predicate(&self, i: usize) -> (r: Result<(Expr, usize), OraError>)
        requires
            self.inv(),
            i <= self.tokens@.len(),
        ensures
            match r {
                Ok((v, j)) => predicate(self.source(), i as int) == Ok::<(tree::Expr, int), Failure>((ast::expr_tree(v), j as int)) && i + 1 <= j <= self.tokens@.len(),
                Err(e) => predicate(self.source(), i as int) == Err::<(tree::Expr, int), Failure>(e@),
            },
        decreases self.tokens@.len() - i, 14int,
    {
        let (left, i) = self.additive(i)?;
        self.predicate_rest(i, left)
    }

    /// What follows the sum that a condition is about.
    #[verifier::spinoff_prover]
    #[verifier::rlimit(100)]
    pub(crate) fn predicate_rest(&self, i: usize, left: Expr) -> (r: Result<(Expr, usize), OraError>)
        requires
            self.inv(),
            i <= self.tokens@.len(),
        ensures
            match r {
                Ok((v, j)) => predicate_rest(self.source(), i as int, ast::expr_tree(left)) == Ok::<(tree::Expr, int), Failure>((ast::expr_tree(v), j as int)) && i <= j <= self.tokens@.len(),
                Err(e) => predicate_rest(self.source(), i as int, ast::expr_tree(left)) == Err::<(tree::Expr, int), Failure>(e@),
            },
        decreases self.tokens@.len() - i, 13int,
    {
        let op = self.comparison(i);
        if let Some(op) = op {
            let (right, i) = self.additive(i + 1)?;
            return Ok((Expr::Binary(op, Box::new(left), Box::new(right)), i));
        }
        if self.is_kw(i, 0, "IS") {
            let i: usize = i + 1;
            let negated = self.is_kw(i, 0, "NOT");
            let i: usize = if negated {
                i + 1
            } else {
                i
            };
            if !self.is_kw(i, 0, "NULL") {
                return Err(OraError::new(905, "missing keyword"));
            }
            let i: usize = i + 1;
            return Ok((Expr::IsNull { expr: Box::new(left), negated }, i));
        }
        let negated = self.is_kw(i, 0, "NOT") && (self.is_kw(i, 1, "BETWEEN") || self.is_kw(i, 1, "IN") || self.is_kw(i, 1, "LIKE"));
        let i: usize = if negated {
            i + 1
        } else {
            i
        };
        if self.is_kw(i, 0, "BETWEEN") {
            return self.between_rest(i + 1, left, negated);
        }
        if self.is_kw(i, 0, "IN") {
            return self.in_rest(i + 1, left, negated);
        }
        if self.is_kw(i, 0, "LIKE") {
            return self.like_rest(i + 1, left, negated);
        }
        Ok((left, i))
    }

    #[verifier::spinoff_prover]
    #[verifier::rlimit(100)]
    pub(crate) fn between_rest(&self, i: usize, left: Expr, negated: bool) -> (r: Result<(Expr, usize), OraError>)
        requires
            self.inv(),
            i <= self.tokens@.len(),
        ensures
            match r {
                Ok((v, j)) => between_rest(self.source(), i as int, ast::expr_tree(left), negated) == Ok::<(tree::Expr, int), Failure>((ast::expr_tree(v), j as int)) && i + 1 <= j <= self.tokens@.len(),
                Err(e) => between_rest(self.source(), i as int, ast::expr_tree(left), negated) == Err::<(tree::Expr, int), Failure>(e@),
            },
        decreases self.tokens@.len() - i, 22int,
    {
        let (low, i) = self.additive(i)?;
        if !self.is_kw(i, 0, "AND") {
            return Err(OraError::new(905, "missing keyword"));
        }
        let i: usize = i + 1;
        let (high, i) = self.additive(i)?;
        Ok((Expr::Between { expr: Box::new(left), low: Box::new(low), high: Box::new(high), negated }, i))
    }

    #[verifier::spinoff_prover]
    #[verifier::rlimit(100)]
    pub(crate) fn in_rest(&self, i: usize, left: Expr, negated: bool) -> (r: Result<(Expr, usize), OraError>)
        requires
            self.inv(),
            i <= self.tokens@.len(),
        ensures
            match r {
                Ok((v, j)) => in_rest(self.source(), i as int, ast::expr_tree(left), negated) == Ok::<(tree::Expr, int), Failure>((ast::expr_tree(v), j as int)) && i + 1 <= j <= self.tokens@.len(),
                Err(e) => in_rest(self.source(), i as int, ast::expr_tree(left), negated) == Err::<(tree::Expr, int), Failure>(e@),
            },
        decreases self.tokens@.len() - i, 22int,
    {
        if !self.is_sym(i, 0, "(") {
            return Err(OraError::new(906, "missing left parenthesis"));
        }
        let i: usize = i + 1;
        if self.is_kw(i, 0, "SELECT") {
            let (q, i) = self.query(i)?;
            if !self.is_sym(i, 0, ")") {
                return Err(OraError::new(907, "missing right parenthesis"));
            }
            let i: usize = i + 1;
            return Ok((Expr::InSubquery { expr: Box::new(left), query: Box::new(q), negated }, i));
        }
        let (list, i) = self.expr_list(i, ast::no_exprs())?;
        if !self.is_sym(i, 0, ")") {
            return Err(OraError::new(907, "missing right parenthesis"));
        }
        let i: usize = i + 1;
        Ok((Expr::InList { expr: Box::new(left), list, negated }, i))
    }

    #[verifier::spinoff_prover]
    #[verifier::rlimit(100)]
    pub(crate) fn like_rest(&self, i: usize, left: Expr, negated: bool) -> (r: Result<(Expr, usize), OraError>)
        requires
            self.inv(),
            i <= self.tokens@.len(),
        ensures
            match r {
                Ok((v, j)) => like_rest(self.source(), i as int, ast::expr_tree(left), negated) == Ok::<(tree::Expr, int), Failure>((ast::expr_tree(v), j as int)) && i + 1 <= j <= self.tokens@.len(),
                Err(e) => like_rest(self.source(), i as int, ast::expr_tree(left), negated) == Err::<(tree::Expr, int), Failure>(e@),
            },
        decreases self.tokens@.len() - i, 22int,
    {
        let (pattern, i) = self.additive(i)?;
        let (escape, i) = self.escape_clause(i)?;
        Ok((Expr::Like { expr: Box::new(left), pattern: Box::new(pattern), escape: boxed_expr(escape), negated }, i))
    }

    /// Expressions with commas between them.
    #[verifier::spinoff_prover]
    #[verifier::rlimit(100)]
    #[verifier::loop_isolation(false)]
    pub(crate) fn expr_list(&self, i: usize, acc: Vec<Expr>) -> (r: Result<(Vec<Expr>, usize), OraError>)
        requires
            self.inv(),
            i <= self.tokens@.len(),
        ensures
            match r {
                Ok((v, j)) => expr_list(self.source(), i as int, ast::exprs_tree(acc)) == Ok::<(Seq<tree::Expr>, int), Failure>((ast::exprs_tree(v), j as int)) && i + 1 <= j <= self.tokens@.len(),
                Err(e) => expr_list(self.source(), i as int, ast::exprs_tree(acc)) == Err::<(Seq<tree::Expr>, int), Failure>(e@),
            },
        decreases self.tokens@.len() - i, 20int,
    {
        let mut acc = acc;
        let mut pos: usize = i;
        let ghost due = expr_list(self.source(), i as int, ast::exprs_tree(acc));
        loop
            invariant
                self.inv(),
                i <= pos <= self.tokens@.len(),
                due == expr_list(self.source(), pos as int, ast::exprs_tree(acc)),
            decreases self.tokens@.len() - pos,
        {
            let i: usize = pos;
            let (e, i) = self.expr(i)?;
            if !self.is_sym(i, 0, ",") {
                return Ok((pushed_expr(acc, e), i));
            }
            let i: usize = i + 1;
            let ghost before = acc;
            let x = e;
            acc.push(x);
            assert(ast::exprs_tree(acc) =~= ast::exprs_tree(before).push(ast::expr_tree(x)));
            pos = i;
        }
    }

    /// Terms with `+`, `-` or `||` between them.
    #[verifier::spinoff_prover]
    #[verifier::rlimit(100)]
    pub(crate) fn additive(&self, i: usize) -> (r: Result<(Expr, usize), OraError>)
        requires
            self.inv(),
            i <= self.tokens@.len(),
        ensures
            match r {
                Ok((v, j)) => additive(self.source(), i as int) == Ok::<(tree::Expr, int), Failure>((ast::expr_tree(v), j as int)) && i + 1 <= j <= self.tokens@.len(),
                Err(e) => additive(self.source(), i as int) == Err::<(tree::Expr, int), Failure>(e@),
            },
        decreases self.tokens@.len() - i, 12int,
    {
        let (left, i) = self.term(i)?;
        self.sum_rest(i, left)
    }

    #[verifier::spinoff_prover]
    #[verifier::rlimit(100)]
    #[verifier::loop_isolation(false)]
    pub(crate) fn sum_rest(&self, i: usize, left: Expr) -> (r: Result<(Expr, usize), OraError>)
        requires
            self.inv(),
            i <= self.tokens@.len(),
        ensures
            match r {
                Ok((v, j)) => sum_rest(self.source(), i as int, ast::expr_tree(left)) == Ok::<(tree::Expr, int), Failure>((ast::expr_tree(v), j as int)) && i <= j <= self.tokens@.len(),
                Err(e) => sum_rest(self.source(), i as int, ast::expr_tree(left)) == Err::<(tree::Expr, int), Failure>(e@),
            },
        decreases self.tokens@.len() - i, 11int,
    {
        let mut left = left;
        let mut pos: usize = i;
        let ghost due = sum_rest(self.source(), i as int, ast::expr_tree(left));
        loop
            invariant
                self.inv(),
                i <= pos <= self.tokens@.len(),
                due == sum_rest(self.source(), pos as int, ast::expr_tree(left)),
            decreases self.tokens@.len() - pos,
        {
            let i: usize = pos;
            let op = self.sum(i);
            if let Some(op) = op {
                let (right, i) = self.term(i + 1)?;
                left = Expr::Binary(op, Box::new(left), Box::new(right));
                pos = i;
                continue;
            }
            return Ok((left, i));
        }
    }

    /// Factors with `*` or `/` between them.
    #[verifier::spinoff_prover]
    #[verifier::rlimit(100)]
    pub(crate) fn term(&self, i: usize) -> (r: Result<(Expr, usize), OraError>)
        requires
            self.inv(),
            i <= self.tokens@.len(),
        ensures
            match r {
                Ok((v, j)) => term(self.source(), i as int) == Ok::<(tree::Expr, int), Failure>((ast::expr_tree(v), j as int)) && i + 1 <= j <= self.tokens@.len(),
                Err(e) => term(self.source(), i as int) == Err::<(tree::Expr, int), Failure>(e@),
            },
        decreases self.tokens@.len() - i, 10int,
    {
        let (left, i) = self.unary(i)?;
        self.product_rest(i, left)
    }

    #[verifier::spinoff_prover]
    #[verifier::rlimit(100)]
    #[verifier::loop_isolation(false)]
    pub(crate) fn product_rest(&self, i: usize, left: Expr) -> (r: Result<(Expr, usize), OraError>)
        requires
            self.inv(),
            i <= self.tokens@.len(),
        ensures
            match r {
                Ok((v, j)) => product_rest(self.source(), i as int, ast::expr_tree(left)) == Ok::<(tree::Expr, int), Failure>((ast::expr_tree(v), j as int)) && i <= j <= self.tokens@.len(),
                Err(e) => product_rest(self.source(), i as int, ast::expr_tree(left)) == Err::<(tree::Expr, int), Failure>(e@),
            },
        decreases self.tokens@.len() - i, 9int,
    {
        let mut left = left;
        let mut pos: usize = i;
        let ghost due = product_rest(self.source(), i as int, ast::expr_tree(left));
        loop
            invariant
                self.inv(),
                i <= pos <= self.tokens@.len(),
                due == product_rest(self.source(), pos as int, ast::expr_tree(left)),
            decreases self.tokens@.len() - pos,
        {
            let i: usize = pos;
            let op = self.product(i);
            if let Some(op) = op {
                let (right, i) = self.unary(i + 1)?;
                left = Expr::Binary(op, Box::new(left), Box::new(right));
                pos = i;
                continue;
            }
            return Ok((left, i));
        }
    }

    #[verifier::spinoff_prover]
    #[verifier::rlimit(100)]
    pub(crate) fn unary(&self, i: usize) -> (r: Result<(Expr, usize), OraError>)
        requires
            self.inv(),
            i <= self.tokens@.len(),
        ensures
            match r {
                Ok((v, j)) => unary(self.source(), i as int) == Ok::<(tree::Expr, int), Failure>((ast::expr_tree(v), j as int)) && i + 1 <= j <= self.tokens@.len(),
                Err(e) => unary(self.source(), i as int) == Err::<(tree::Expr, int), Failure>(e@),
            },
        decreases self.tokens@.len() - i, 8int,
    {
        if self.is_sym(i, 0, "-") {
            let (e, i) = self.unary(i + 1)?;
            return Ok((Expr::Neg(Box::new(e)), i));
        }
        if self.is_sym(i, 0, "+") {
            return self.unary(i + 1);
        }
        self.primary(i)
    }

    /// `a.b.c` as one name.
    #[verifier::spinoff_prover]
    #[verifier::rlimit(100)]
    pub(crate) fn dotted_name(&self, i: usize) -> (r: Result<(String, usize), OraError>)
        requires
            self.inv(),
            i <= self.tokens@.len(),
        ensures
            match r {
                Ok((v, j)) => dotted_name(self.source(), i as int) == Ok::<(Seq<char>, int), Failure>((v@, j as int)) && i + 1 <= j <= self.tokens@.len(),
                Err(e) => dotted_name(self.source(), i as int) == Err::<(Seq<char>, int), Failure>(e@),
            },
        decreases self.tokens@.len() - i, 2int,
    {
        let (name, i) = self.ident(i)?;
        self.dotted_rest(i, name)
    }

    #[verifier::spinoff_prover]
    #[verifier::rlimit(100)]
    #[verifier::loop_isolation(false)]
    pub(crate) fn dotted_rest(&self, i: usize, name: String) -> (r: Result<(String, usize), OraError>)
        requires
            self.inv(),
            i <= self.tokens@.len(),
        ensures
            match r {
                Ok((v, j)) => dotted_rest(self.source(), i as int, name@) == Ok::<(Seq<char>, int), Failure>((v@, j as int)) && i <= j <= self.tokens@.len(),
                Err(e) => dotted_rest(self.source(), i as int, name@) == Err::<(Seq<char>, int), Failure>(e@),
            },
        decreases self.tokens@.len() - i, 1int,
    {
        let mut name = name;
        let mut pos: usize = i;
        let ghost due = dotted_rest(self.source(), i as int, name@);
        loop
            invariant
                self.inv(),
                i <= pos <= self.tokens@.len(),
                due == dotted_rest(self.source(), pos as int, name@),
            decreases self.tokens@.len() - pos,
        {
            let i: usize = pos;
            if !(self.is_sym(i, 0, ".") && self.is_ident(i, 1)) {
                return Ok((name, i));
            }
            let (part, i) = self.ident(i + 1)?;
            name = with_part(name, &part);
            pos = i;
        }
    }

    /// `[operand] WHEN .. THEN .. [ELSE ..] END`, behind CASE.
    #[verifier::spinoff_prover]
    #[verifier::rlimit(100)]
    pub(crate) fn case_expr(&self, i: usize) -> (r: Result<(Expr, usize), OraError>)
        requires
            self.inv(),
            i <= self.tokens@.len(),
        ensures
            match r {
                Ok((v, j)) => case_expr(self.source(), i as int) == Ok::<(tree::Expr, int), Failure>((ast::expr_tree(v), j as int)) && i + 1 <= j <= self.tokens@.len(),
                Err(e) => case_expr(self.source(), i as int) == Err::<(tree::Expr, int), Failure>(e@),
            },
        decreases self.tokens@.len() - i, 23int,
    {
        let (operand, i) = self.case_expr_operand(i)?;
        let (whens, i) = self.case_whens(i, ast::no_expr_exprs())?;
        self.case_tail(i, operand, whens)
    }

    #[verifier::spinoff_prover]
    #[verifier::rlimit(100)]
    pub(crate) fn case_tail(&self, i: usize, operand: Option<Expr>, whens: Vec<(Expr, Expr)>) -> (r: Result<(Expr, usize), OraError>)
        requires
            self.inv(),
            i <= self.tokens@.len(),
        ensures
            match r {
                Ok((v, j)) => case_tail(self.source(), i as int, ast::opt_expr_tree(operand), ast::expr_exprs_tree(whens)) == Ok::<(tree::Expr, int), Failure>((ast::expr_tree(v), j as int)) && i + 1 <= j <= self.tokens@.len(),
                Err(e) => case_tail(self.source(), i as int, ast::opt_expr_tree(operand), ast::expr_exprs_tree(whens)) == Err::<(tree::Expr, int), Failure>(e@),
            },
        decreases self.tokens@.len() - i, 22int,
    {
        let (else_, i) = self.else_clause(i)?;
        if !self.is_kw(i, 0, "END") {
            return Err(OraError::new(905, "missing keyword"));
        }
        let i: usize = i + 1;
        Ok((Expr::Case { operand: boxed_expr(operand), whens, else_: boxed_expr(else_) }, i))
    }

    #[verifier::spinoff_prover]
    #[verifier::rlimit(100)]
    pub(crate) fn case_operand(&self, i: usize) -> (r: Result<(Option<Expr>, usize), OraError>)
        requires
            self.inv(),
            i <= self.tokens@.len(),
        ensures
            match r {
                Ok((v, j)) => case_operand(self.source(), i as int) == Ok::<(Option<tree::Expr>, int), Failure>((ast::opt_expr_tree(v), j as int)) && i + 1 <= j <= self.tokens@.len(),
                Err(e) => case_operand(self.source(), i as int) == Err::<(Option<tree::Expr>, int), Failure>(e@),
            },
        decreases self.tokens@.len() - i, 20int,
    {
        let (e, i) = self.expr(i)?;
        Ok((Some(e), i))
    }

    #[verifier::spinoff_prover]
    #[verifier::rlimit(100)]
    #[verifier::loop_isolation(false)]
    pub(crate) fn case_whens(&self, i: usize, acc: Vec<(Expr, Expr)>) -> (r: Result<(Vec<(Expr, Expr)>, usize), OraError>)
        requires
            self.inv(),
            i <= self.tokens@.len(),
        ensures
            match r {
                Ok((v, j)) => case_whens(self.source(), i as int, ast::expr_exprs_tree(acc)) == Ok::<(Seq<(tree::Expr, tree::Expr)>, int), Failure>((ast::expr_exprs_tree(v), j as int)) && i <= j <= self.tokens@.len(),
                Err(e) => case_whens(self.source(), i as int, ast::expr_exprs_tree(acc)) == Err::<(Seq<(tree::Expr, tree::Expr)>, int), Failure>(e@),
            },
        decreases self.tokens@.len() - i, 21int,
    {
        let mut acc = acc;
        let mut pos: usize = i;
        let ghost due = case_whens(self.source(), i as int, ast::expr_exprs_tree(acc));
        loop
            invariant
                self.inv(),
                i <= pos <= self.tokens@.len(),
                due == case_whens(self.source(), pos as int, ast::expr_exprs_tree(acc)),
            decreases self.tokens@.len() - pos,
        {
            let i: usize = pos;
            if !self.is_kw(i, 0, "WHEN") {
                return Ok((acc, i));
            }
            let (w, i) = self.expr(i + 1)?;
            if !self.is_kw(i, 0, "THEN") {
                return Err(OraError::new(905, "missing keyword"));
            }
            let i: usize = i + 1;
            let (t, i) = self.expr(i)?;
            let ghost before = acc;
            let x = (w, t);
            acc.push(x);
            assert(ast::expr_exprs_tree(acc) =~= ast::expr_exprs_tree(before).push((ast::expr_tree(x.0), ast::expr_tree(x.1))));
            pos = i;
        }
    }

    /// The arguments of a function, behind the bracket.
    #[verifier::spinoff_prover]
    #[verifier::rlimit(100)]
    pub(crate) fn function(&self, i: usize, name: String) -> (r: Result<(Expr, usize), OraError>)
        requires
            self.inv(),
            i <= self.tokens@.len(),
        ensures
            match r {
                Ok((v, j)) => function(self.source(), i as int, name@) == Ok::<(tree::Expr, int), Failure>((ast::expr_tree(v), j as int)) && i + 1 <= j <= self.tokens@.len(),
                Err(e) => function(self.source(), i as int, name@) == Err::<(tree::Expr, int), Failure>(e@),
            },
        decreases self.tokens@.len() - i, 25int,
    {
        if text::same(&name, "COUNT") && self.is_sym(i, 0, "*") && self.is_sym(i, 1, ")") {
            let i: usize = i + 2;
            return Ok((Expr::CountStar, i));
        }
        self.function_args(i, name)
    }

    #[verifier::spinoff_prover]
    #[verifier::rlimit(100)]
    pub(crate) fn function_args(&self, i: usize, name: String) -> (r: Result<(Expr, usize), OraError>)
        requires
            self.inv(),
            i <= self.tokens@.len(),
        ensures
            match r {
                Ok((v, j)) => function_args(self.source(), i as int, name@) == Ok::<(tree::Expr, int), Failure>((ast::expr_tree(v), j as int)) && i + 1 <= j <= self.tokens@.len(),
                Err(e) => function_args(self.source(), i as int, name@) == Err::<(tree::Expr, int), Failure>(e@),
            },
        decreases self.tokens@.len() - i, 24int,
    {
        let (distinct, i) = self.distinct_word(i)?;
        let (args, i) = self.closed_list(i)?;
        Ok((function_called(name, args, distinct), i))
    }

    #[verifier::spinoff_prover]
    #[verifier::rlimit(100)]
    pub(crate) fn distinct_word(&self, i: usize) -> (r: Result<(bool, usize), OraError>)
        requires
            self.inv(),
            i <= self.tokens@.len(),
        ensures
            match r {
                Ok((v, j)) => distinct_word(self.source(), i as int) == Ok::<(bool, int), Failure>((v, j as int)) && i <= j <= self.tokens@.len(),
                Err(e) => distinct_word(self.source(), i as int) == Err::<(bool, int), Failure>(e@),
            },
        decreases self.tokens@.len() - i, 0int,
    {
        if self.is_kw(i, 0, "DISTINCT") {
            let i: usize = i + 1;
            return Ok((true, i));
        }
        Ok((false, i))
    }

    /// Expressions up to a closing bracket.
    #[verifier::spinoff_prover]
    #[verifier::rlimit(100)]
    pub(crate) fn closed_list(&self, i: usize) -> (r: Result<(Vec<Expr>, usize), OraError>)
        requires
            self.inv(),
            i <= self.tokens@.len(),
        ensures
            match r {
                Ok((v, j)) => closed_list(self.source(), i as int) == Ok::<(Seq<tree::Expr>, int), Failure>((ast::exprs_tree(v), j as int)) && i + 1 <= j <= self.tokens@.len(),
                Err(e) => closed_list(self.source(), i as int) == Err::<(Seq<tree::Expr>, int), Failure>(e@),
            },
        decreases self.tokens@.len() - i, 23int,
    {
        if self.is_sym(i, 0, ")") {
            let i: usize = i + 1;
            return Ok((ast::no_exprs(), i));
        }
        let (args, i) = self.expr_list(i, ast::no_exprs())?;
        if !self.is_sym(i, 0, ")") {
            return Err(OraError::new(907, "missing right parenthesis"));
        }
        let i: usize = i + 1;
        Ok((args, i))
    }

    /// A query.
    #[verifier::spinoff_prover]
    #[verifier::rlimit(100)]
    pub(crate) fn query(&self, i: usize) -> (r: Result<(Query, usize), OraError>)
        requires
            self.inv(),
            i <= self.tokens@.len(),
        ensures
            match r {
                Ok((v, j)) => query(self.source(), i as int) == Ok::<(tree::Query, int), Failure>((ast::query_tree(v), j as int)) && i + 1 <= j <= self.tokens@.len(),
                Err(e) => query(self.source(), i as int) == Err::<(tree::Query, int), Failure>(e@),
            },
        decreases self.tokens@.len() - i, 25int,
    {
        let (found, i) = self.select(i, false)?;
        Ok((found.0, i))
    }

    /// `SELECT items [INTO targets] FROM table [alias] [WHERE condition]`.
    #[verifier::spinoff_prover]
    #[verifier::rlimit(100)]
    pub(crate) fn select(&self, i: usize, into_ok: bool) -> (r: Result<((Query, Option<Vec<Expr>>), usize), OraError>)
        requires
            self.inv(),
            i <= self.tokens@.len(),
        ensures
            match r {
                Ok((v, j)) => select(self.source(), i as int, into_ok) == Ok::<((tree::Query, Option<Seq<tree::Expr>>), int), Failure>(((ast::query_tree(v.0), ast::opt_exprs_tree(v.1)), j as int)) && i + 1 <= j <= self.tokens@.len(),
                Err(e) => select(self.source(), i as int, into_ok) == Err::<((tree::Query, Option<Seq<tree::Expr>>), int), Failure>(e@),
            },
        decreases self.tokens@.len() - i, 24int,
    {
        if !self.is_kw(i, 0, "SELECT") {
            return Err(OraError::new(900, "invalid SQL statement"));
        }
        let i: usize = i + 1;
        let distinct = !self.plain && self.is_kw(i, 0, "DISTINCT");
        let i: usize = if distinct {
            i + 1
        } else {
            i
        };
        let (items, i) = self.select_items(i, ast::no_select_items(), into_ok)?;
        let (into, i) = self.select_into_of_select(i, into_ok)?;
        let (q, i) = self.table_query(i, distinct, items)?;
        Ok(((q, into), i))
    }

    /// A query from FROM on.
    #[verifier::spinoff_prover]
    #[verifier::rlimit(100)]
    pub(crate) fn table_query(&self, i: usize, distinct: bool, items: Vec<SelectItem>) -> (r: Result<(Query, usize), OraError>)
        requires
            self.inv(),
            i <= self.tokens@.len(),
        ensures
            match r {
                Ok((v, j)) => table_query(self.source(), i as int, distinct, ast::select_items_tree(items)) == Ok::<(tree::Query, int), Failure>((ast::query_tree(v), j as int)) && i + 1 <= j <= self.tokens@.len(),
                Err(e) => table_query(self.source(), i as int, distinct, ast::select_items_tree(items)) == Err::<(tree::Query, int), Failure>(e@),
            },
        decreases self.tokens@.len() - i, 23int,
    {
        if !self.is_kw(i, 0, "FROM") {
            return Err(no_from_error());
        }
        let i: usize = i + 1;
        if !self.is_ident(i, 0) {
            return Err(OraError::new(903, "invalid table name"));
        }
        if self.plain && !self.named_dual(i) {
            return Err(OraError::table_not_found());
        }
        let (name, i) = self.table_name(i)?;
        let (alias, i) = self.alias_clause(i)?;
        let (where_, i) = self.where_clause(i)?;
        Ok((one_table_query(distinct, items, name, alias, where_), i))
    }

    #[verifier::spinoff_prover]
    #[verifier::rlimit(100)]
    #[verifier::loop_isolation(false)]
    pub(crate) fn select_items(&self, i: usize, acc: Vec<SelectItem>, into_ok: bool) -> (r: Result<(Vec<SelectItem>, usize), OraError>)
        requires
            self.inv(),
            i <= self.tokens@.len(),
        ensures
            match r {
                Ok((v, j)) => select_items(self.source(), i as int, ast::select_items_tree(acc), into_ok) == Ok::<(Seq<tree::SelectItem>, int), Failure>((ast::select_items_tree(v), j as int)) && i + 1 <= j <= self.tokens@.len(),
                Err(e) => select_items(self.source(), i as int, ast::select_items_tree(acc), into_ok) == Err::<(Seq<tree::SelectItem>, int), Failure>(e@),
            },
        decreases self.tokens@.len() - i, 23int,
    {
        let mut acc = acc;
        let mut pos: usize = i;
        let ghost due = select_items(self.source(), i as int, ast::select_items_tree(acc), into_ok);
        loop
            invariant
                self.inv(),
                i <= pos <= self.tokens@.len(),
                due == select_items(self.source(), pos as int, ast::select_items_tree(acc), into_ok),
            decreases self.tokens@.len() - pos,
        {
            let i: usize = pos;
            let (item, i) = self.select_item(i, into_ok)?;
            if !self.is_sym(i, 0, ",") {
                return Ok((pushed_item(acc, item), i));
            }
            let i: usize = i + 1;
            let ghost before = acc;
            let x = item;
            acc.push(x);
            assert(ast::select_items_tree(acc) =~= ast::select_items_tree(before).push(ast::select_item_tree(x)));
            pos = i;
        }
    }

    /// One column of a query.
    #[verifier::spinoff_prover]
    #[verifier::rlimit(100)]
    pub(crate) fn select_item(&self, i: usize, into_ok: bool) -> (r: Result<(SelectItem, usize), OraError>)
        requires
            self.inv(),
            i <= self.tokens@.len(),
        ensures
            match r {
                Ok((v, j)) => select_item(self.source(), i as int, into_ok) == Ok::<(tree::SelectItem, int), Failure>((ast::select_item_tree(v), j as int)) && i + 1 <= j <= self.tokens@.len(),
                Err(e) => select_item(self.source(), i as int, into_ok) == Err::<(tree::SelectItem, int), Failure>(e@),
            },
        decreases self.tokens@.len() - i, 22int,
    {
        if self.is_sym(i, 0, "*") {
            let i: usize = i + 1;
            return Ok((SelectItem::Star, i));
        }
        if !self.plain && self.is_ident(i, 0) && self.is_sym(i, 1, ".") && self.is_sym(i, 2, "*") {
            let name = self.name(i);
            let i: usize = i + 3;
            return Ok((SelectItem::QualifiedStar(name), i));
        }
        let start = i;
        let (expr, i) = self.item_expr(i)?;
        let name = self.column_text(start, i);
        if self.is_kw(i, 0, "AS") {
            if !self.is_ident(i, 1) {
                return Err(no_from_error());
            }
            let (name, i) = self.ident(i + 1)?;
            return Ok((SelectItem::Expr { expr, name }, i));
        }
        if self.is_ident(i, 0) && !self.is_kw(i, 0, "FROM") && !(into_ok && self.is_kw(i, 0, "INTO")) {
            let (name, i) = self.ident(i)?;
            return Ok((SelectItem::Expr { expr, name }, i));
        }
        Ok((SelectItem::Expr { expr, name }, i))
    }

    #[verifier::spinoff_prover]
    #[verifier::rlimit(100)]
    pub(crate) fn item_expr(&self, i: usize) -> (r: Result<(Expr, usize), OraError>)
        requires
            self.inv(),
            i <= self.tokens@.len(),
        ensures
            match r {
                Ok((v, j)) => item_expr(self.source(), i as int) == Ok::<(tree::Expr, int), Failure>((ast::expr_tree(v), j as int)) && i + 1 <= j <= self.tokens@.len(),
                Err(e) => item_expr(self.source(), i as int) == Err::<(tree::Expr, int), Failure>(e@),
            },
        decreases self.tokens@.len() - i, 20int,
    {
        if self.plain {
            return self.additive(i);
        }
        self.expr(i)
    }

    #[verifier::spinoff_prover]
    #[verifier::rlimit(100)]
    #[verifier::loop_isolation(false)]
    pub(crate) fn target_list(&self, i: usize, acc: Vec<Expr>) -> (r: Result<(Vec<Expr>, usize), OraError>)
        requires
            self.inv(),
            i <= self.tokens@.len(),
        ensures
            match r {
                Ok((v, j)) => target_list(self.source(), i as int, ast::exprs_tree(acc)) == Ok::<(Seq<tree::Expr>, int), Failure>((ast::exprs_tree(v), j as int)) && i + 1 <= j <= self.tokens@.len(),
                Err(e) => target_list(self.source(), i as int, ast::exprs_tree(acc)) == Err::<(Seq<tree::Expr>, int), Failure>(e@),
            },
        decreases self.tokens@.len() - i, 9int,
    {
        let mut acc = acc;
        let mut pos: usize = i;
        let ghost due = target_list(self.source(), i as int, ast::exprs_tree(acc));
        loop
            invariant
                self.inv(),
                i <= pos <= self.tokens@.len(),
                due == target_list(self.source(), pos as int, ast::exprs_tree(acc)),
            decreases self.tokens@.len() - pos,
        {
            let i: usize = pos;
            let (e, i) = self.target_expr(i)?;
            if !self.is_sym(i, 0, ",") {
                return Ok((pushed_expr(acc, e), i));
            }
            let i: usize = i + 1;
            let ghost before = acc;
            let x = e;
            acc.push(x);
            assert(ast::exprs_tree(acc) =~= ast::exprs_tree(before).push(ast::expr_tree(x)));
            pos = i;
        }
    }

    /// Where a value goes: a bind, a variable or a field.
    #[verifier::spinoff_prover]
    #[verifier::rlimit(100)]
    pub(crate) fn target_expr(&self, i: usize) -> (r: Result<(Expr, usize), OraError>)
        requires
            self.inv(),
            i <= self.tokens@.len(),
        ensures
            match r {
                Ok((v, j)) => target_expr(self.source(), i as int) == Ok::<(tree::Expr, int), Failure>((ast::expr_tree(v), j as int)) && i + 1 <= j <= self.tokens@.len(),
                Err(e) => target_expr(self.source(), i as int) == Err::<(tree::Expr, int), Failure>(e@),
            },
        decreases self.tokens@.len() - i, 8int,
    {
        if self.is_bind(i, 0) {
            let n = self.bind(i);
            let i: usize = i + 1;
            return Ok((Expr::Bind(n), i));
        }
        let (name, i) = self.dotted_name(i)?;
        Ok((column_named(&name), i))
    }

    /// `[RETURNING expressions INTO targets]`.
    #[verifier::spinoff_prover]
    #[verifier::rlimit(100)]
    pub(crate) fn returning(&self, i: usize) -> (r: Result<(Option<Returning>, usize), OraError>)
        requires
            self.inv(),
            i <= self.tokens@.len(),
        ensures
            match r {
                Ok((v, j)) => returning(self.source(), i as int) == Ok::<(Option<tree::Returning>, int), Failure>((ast::opt_returning_tree(v), j as int)) && i <= j <= self.tokens@.len(),
                Err(e) => returning(self.source(), i as int) == Err::<(Option<tree::Returning>, int), Failure>(e@),
            },
        decreases self.tokens@.len() - i, 21int,
    {
        if !(self.is_kw(i, 0, "RETURNING") || self.is_kw(i, 0, "RETURN")) {
            return Ok((None, i));
        }
        let (exprs, i) = self.expr_list(i + 1, ast::no_exprs())?;
        if !self.is_kw(i, 0, "INTO") {
            return Err(OraError::new(905, "missing keyword"));
        }
        let i: usize = i + 1;
        let (into, i) = self.target_list(i, ast::no_exprs())?;
        Ok((Some(Returning { exprs, into }), i))
    }

    #[verifier::spinoff_prover]
    #[verifier::rlimit(100)]
    pub(crate) fn insert(&self, i: usize) -> (r: Result<(Insert, usize), OraError>)
        requires
            self.inv(),
            i <= self.tokens@.len(),
        ensures
            match r {
                Ok((v, j)) => insert(self.source(), i as int) == Ok::<(tree::Insert, int), Failure>((ast::insert_tree(v), j as int)) && i + 1 <= j <= self.tokens@.len(),
                Err(e) => insert(self.source(), i as int) == Err::<(tree::Insert, int), Failure>(e@),
            },
        decreases self.tokens@.len() - i, 22int,
    {
        if !self.is_kw(i, 0, "INSERT") {
            return Err(OraError::new(905, "missing keyword"));
        }
        let i: usize = i + 1;
        if !self.is_kw(i, 0, "INTO") {
            return Err(OraError::new(905, "missing keyword"));
        }
        let i: usize = i + 1;
        let (table, i) = self.object_name(i)?;
        let (columns, i) = self.column_list(i)?;
        let (source, i) = self.insert_source(i)?;
        let (returning, i) = self.returning(i)?;
        Ok((Insert { table, columns, source, returning }, i))
    }

    /// The rows that are inserted: a query, or VALUES with a list.
    #[verifier::spinoff_prover]
    #[verifier::rlimit(100)]
    pub(crate) fn insert_source(&self, i: usize) -> (r: Result<(InsertSource, usize), OraError>)
        requires
            self.inv(),
            i <= self.tokens@.len(),
        ensures
            match r {
                Ok((v, j)) => insert_source(self.source(), i as int) == Ok::<(tree::InsertSource, int), Failure>((ast::insert_source_tree(v), j as int)) && i + 1 <= j <= self.tokens@.len(),
                Err(e) => insert_source(self.source(), i as int) == Err::<(tree::InsertSource, int), Failure>(e@),
            },
        decreases self.tokens@.len() - i, 26int,
    {
        if self.is_kw(i, 0, "SELECT") {
            let (q, i) = self.query(i)?;
            return Ok((InsertSource::Query(Box::new(q)), i));
        }
        if !self.is_kw(i, 0, "VALUES") {
            return Err(OraError::new(926, "missing VALUES keyword"));
        }
        let i: usize = i + 1;
        if !self.is_sym(i, 0, "(") {
            return Err(OraError::new(906, "missing left parenthesis"));
        }
        let i: usize = i + 1;
        let (values, i) = self.expr_list(i, ast::no_exprs())?;
        if !self.is_sym(i, 0, ")") {
            return Err(OraError::new(907, "missing right parenthesis"));
        }
        let i: usize = i + 1;
        Ok((InsertSource::Values(values), i))
    }

    /// `[(columns)]`
    #[verifier::spinoff_prover]
    #[verifier::rlimit(100)]
    pub(crate) fn column_list(&self, i: usize) -> (r: Result<(Option<Vec<String>>, usize), OraError>)
        requires
            self.inv(),
            i <= self.tokens@.len(),
        ensures
            match r {
                Ok((v, j)) => column_list(self.source(), i as int) == Ok::<(Option<Seq<Seq<char>>>, int), Failure>((ast::opt_texts_tree(v), j as int)) && i <= j <= self.tokens@.len(),
                Err(e) => column_list(self.source(), i as int) == Err::<(Option<Seq<Seq<char>>>, int), Failure>(e@),
            },
        decreases self.tokens@.len() - i, 2int,
    {
        if !self.is_sym(i, 0, "(") {
            return Ok((None, i));
        }
        let (names, i) = self.name_list(i + 1, ast::no_texts())?;
        if !self.is_sym(i, 0, ")") {
            return Err(OraError::new(907, "missing right parenthesis"));
        }
        let i: usize = i + 1;
        Ok((Some(names), i))
    }

    /// Names with commas between them.
    #[verifier::spinoff_prover]
    #[verifier::rlimit(100)]
    #[verifier::loop_isolation(false)]
    pub(crate) fn name_list(&self, i: usize, acc: Vec<String>) -> (r: Result<(Vec<String>, usize), OraError>)
        requires
            self.inv(),
            i <= self.tokens@.len(),
        ensures
            match r {
                Ok((v, j)) => name_list(self.source(), i as int, ast::texts_tree(acc)) == Ok::<(Seq<Seq<char>>, int), Failure>((ast::texts_tree(v), j as int)) && i + 1 <= j <= self.tokens@.len(),
                Err(e) => name_list(self.source(), i as int, ast::texts_tree(acc)) == Err::<(Seq<Seq<char>>, int), Failure>(e@),
            },
        decreases self.tokens@.len() - i, 1int,
    {
        let mut acc = acc;
        let mut pos: usize = i;
        let ghost due = name_list(self.source(), i as int, ast::texts_tree(acc));
        loop
            invariant
                self.inv(),
                i <= pos <= self.tokens@.len(),
                due == name_list(self.source(), pos as int, ast::texts_tree(acc)),
            decreases self.tokens@.len() - pos,
        {
            let i: usize = pos;
            let (n, i) = self.ident(i)?;
            if !self.is_sym(i, 0, ",") {
                return Ok((pushed_name(acc, n), i));
            }
            let i: usize = i + 1;
            let ghost before = acc;
            let x = n;
            acc.push(x);
            assert(ast::texts_tree(acc) =~= ast::texts_tree(before).push(x@));
            pos = i;
        }
    }

    #[verifier::spinoff_prover]
    #[verifier::rlimit(100)]
    pub(crate) fn update(&self, i: usize) -> (r: Result<(Update, usize), OraError>)
        requires
            self.inv(),
            i <= self.tokens@.len(),
        ensures
            match r {
                Ok((v, j)) => update(self.source(), i as int) == Ok::<(tree::Update, int), Failure>((ast::update_tree(v), j as int)) && i + 1 <= j <= self.tokens@.len(),
                Err(e) => update(self.source(), i as int) == Err::<(tree::Update, int), Failure>(e@),
            },
        decreases self.tokens@.len() - i, 22int,
    {
        if !self.is_kw(i, 0, "UPDATE") {
            return Err(OraError::new(905, "missing keyword"));
        }
        let i: usize = i + 1;
        let (table, i) = self.object_name(i)?;
        let (alias, i) = self.alias_clause_of_update(i)?;
        if !self.is_kw(i, 0, "SET") {
            return Err(OraError::new(971, "missing SET keyword"));
        }
        let i: usize = i + 1;
        let (assignments, i) = self.assignments(i, ast::no_text_exprs())?;
        let (where_, i) = self.where_clause_of_update(i)?;
        let (returning, i) = self.returning(i)?;
        Ok((Update { table, alias, assignments, where_, returning }, i))
    }

    #[verifier::spinoff_prover]
    #[verifier::rlimit(100)]
    #[verifier::loop_isolation(false)]
    pub(crate) fn assignments(&self, i: usize, acc: Vec<(String, Expr)>) -> (r: Result<(Vec<(String, Expr)>, usize), OraError>)
        requires
            self.inv(),
            i <= self.tokens@.len(),
        ensures
            match r {
                Ok((v, j)) => assignments(self.source(), i as int, ast::text_exprs_tree(acc)) == Ok::<(Seq<(Seq<char>, tree::Expr)>, int), Failure>((ast::text_exprs_tree(v), j as int)) && i + 1 <= j <= self.tokens@.len(),
                Err(e) => assignments(self.source(), i as int, ast::text_exprs_tree(acc)) == Err::<(Seq<(Seq<char>, tree::Expr)>, int), Failure>(e@),
            },
        decreases self.tokens@.len() - i, 21int,
    {
        let mut acc = acc;
        let mut pos: usize = i;
        let ghost due = assignments(self.source(), i as int, ast::text_exprs_tree(acc));
        loop
            invariant
                self.inv(),
                i <= pos <= self.tokens@.len(),
                due == assignments(self.source(), pos as int, ast::text_exprs_tree(acc)),
            decreases self.tokens@.len() - pos,
        {
            let i: usize = pos;
            let (name, i) = self.dotted_name(i)?;
            if !self.is_sym(i, 0, "=") {
                return Err(OraError::new(927, "missing equal sign"));
            }
            let i: usize = i + 1;
            let (e, i) = self.expr(i)?;
            let column = last_part_of(&name);
            if !self.is_sym(i, 0, ",") {
                return Ok((pushed_assignment(acc, column, e), i));
            }
            let i: usize = i + 1;
            let ghost before = acc;
            let x = (column, e);
            acc.push(x);
            assert(ast::text_exprs_tree(acc) =~= ast::text_exprs_tree(before).push((x.0@, ast::expr_tree(x.1))));
            pos = i;
        }
    }

    #[verifier::spinoff_prover]
    #[verifier::rlimit(100)]
    pub(crate) fn delete(&self, i: usize) -> (r: Result<(Delete, usize), OraError>)
        requires
            self.inv(),
            i <= self.tokens@.len(),
        ensures
            match r {
                Ok((v, j)) => delete(self.source(), i as int) == Ok::<(tree::Delete, int), Failure>((ast::delete_tree(v), j as int)) && i + 1 <= j <= self.tokens@.len(),
                Err(e) => delete(self.source(), i as int) == Err::<(tree::Delete, int), Failure>(e@),
            },
        decreases self.tokens@.len() - i, 22int,
    {
        if !self.is_kw(i, 0, "DELETE") {
            return Err(OraError::new(905, "missing keyword"));
        }
        let i: usize = i + 1;
        let i: usize = if self.is_kw(i, 0, "FROM") {
            i + 1
        } else {
            i
        };
        let (table, i) = self.object_name(i)?;
        let (alias, i) = self.alias_clause_of_update(i)?;
        let (where_, i) = self.where_clause_of_update(i)?;
        let (returning, i) = self.returning(i)?;
        Ok((Delete { table, alias, where_, returning }, i))
    }

    /// A procedure or function, behind CREATE.
    #[verifier::spinoff_prover]
    #[verifier::rlimit(100)]
    pub(crate) fn create_routine(&self, i: usize) -> (r: Result<(Statement, usize), OraError>)
        requires
            self.inv(),
            i <= self.tokens@.len(),
        ensures
            match r {
                Ok((v, j)) => create_routine(self.source(), i as int) == Ok::<(tree::Statement, int), Failure>((ast::statement_tree(v), j as int)) && i + 1 <= j <= self.tokens@.len(),
                Err(e) => create_routine(self.source(), i as int) == Err::<(tree::Statement, int), Failure>(e@),
            },
        decreases self.tokens@.len() - i, 44int,
    {
        let or_replace = self.is_kw(i, 0, "OR") && self.is_kw(i, 1, "REPLACE");
        let i: usize = if or_replace {
            i + 1
        } else {
            i
        };
        let i: usize = if or_replace {
            i + 1
        } else {
            i
        };
        let (r, i) = self.routine(i)?;
        Ok((Statement::CreateRoutine { routine: Arc::new(r), or_replace }, i))
    }

    /// The procedure or function that goes, behind DROP.
    #[verifier::spinoff_prover]
    #[verifier::rlimit(100)]
    pub(crate) fn drop_routine(&self, i: usize) -> (r: Result<(Statement, usize), OraError>)
        requires
            self.inv(),
            i <= self.tokens@.len(),
        ensures
            match r {
                Ok((v, j)) => drop_routine(self.source(), i as int) == Ok::<(tree::Statement, int), Failure>((ast::statement_tree(v), j as int)) && i + 1 <= j <= self.tokens@.len(),
                Err(e) => drop_routine(self.source(), i as int) == Err::<(tree::Statement, int), Failure>(e@),
            },
        decreases self.tokens@.len() - i, 10int,
    {
        let function = self.is_kw(i, 0, "FUNCTION");
        let i: usize = if function {
            i + 1
        } else {
            i
        };
        let i: usize = if !function && self.is_kw(i, 0, "PROCEDURE") {
            i + 1
        } else {
            i
        };
        let (name, i) = self.object_name(i)?;
        Ok((Statement::DropRoutine { name, function }, i))
    }

    /// A statement that may stand in a block: a query, DML, COMMIT or ROLLBACK.
    #[verifier::spinoff_prover]
    #[verifier::rlimit(100)]
    pub(crate) fn statement(&self, i: usize) -> (r: Result<(Statement, usize), OraError>)
        requires
            self.inv(),
            i <= self.tokens@.len(),
        ensures
            match r {
                Ok((v, j)) => statement(self.source(), i as int) == Ok::<(tree::Statement, int), Failure>((ast::statement_tree(v), j as int)) && i + 1 <= j <= self.tokens@.len(),
                Err(e) => statement(self.source(), i as int) == Err::<(tree::Statement, int), Failure>(e@),
            },
        decreases self.tokens@.len() - i, 30int,
    {
        if self.is_kw(i, 0, "SELECT") {
            let (q, i) = self.query(i)?;
            return Ok((Statement::Query(q), i));
        }
        self.dml(i)
    }

    /// DML, COMMIT or ROLLBACK.
    #[verifier::spinoff_prover]
    #[verifier::rlimit(100)]
    pub(crate) fn dml(&self, i: usize) -> (r: Result<(Statement, usize), OraError>)
        requires
            self.inv(),
            i <= self.tokens@.len(),
        ensures
            match r {
                Ok((v, j)) => dml(self.source(), i as int) == Ok::<(tree::Statement, int), Failure>((ast::statement_tree(v), j as int)) && i + 1 <= j <= self.tokens@.len(),
                Err(e) => dml(self.source(), i as int) == Err::<(tree::Statement, int), Failure>(e@),
            },
        decreases self.tokens@.len() - i, 25int,
    {
        if self.is_kw(i, 0, "INSERT") {
            let (s, i) = self.insert(i)?;
            return Ok((Statement::Insert(s), i));
        }
        if self.is_kw(i, 0, "UPDATE") {
            let (s, i) = self.update(i)?;
            return Ok((Statement::Update(s), i));
        }
        if self.is_kw(i, 0, "DELETE") {
            let (s, i) = self.delete(i)?;
            return Ok((Statement::Delete(s), i));
        }
        if self.is_kw(i, 0, "COMMIT") {
            let i: usize = i + 1;
            let i: usize = if self.is_kw(i, 0, "WORK") {
                i + 1
            } else {
                i
            };
            return Ok((Statement::Commit, i));
        }
        if self.is_kw(i, 0, "ROLLBACK") {
            let i: usize = i + 1;
            let i: usize = if self.is_kw(i, 0, "WORK") {
                i + 1
            } else {
                i
            };
            return Ok((Statement::Rollback, i));
        }
        Err(OraError::new(900, "invalid SQL statement"))
    }

    /// A statement.
    #[verifier::spinoff_prover]
    #[verifier::rlimit(100)]
    pub(crate) fn top_statement(&self, i: usize) -> (r: Result<(Statement, usize), OraError>)
        requires
            self.inv(),
            i <= self.tokens@.len(),
        ensures
            match r {
                Ok((v, j)) => top_statement(self.source(), i as int) == Ok::<(tree::Statement, int), Failure>((ast::statement_tree(v), j as int)) && i + 1 <= j <= self.tokens@.len(),
                Err(e) => top_statement(self.source(), i as int) == Err::<(tree::Statement, int), Failure>(e@),
            },
        decreases self.tokens@.len() - i, 46int,
    {
        if self.is_kw(i, 0, "BEGIN") || self.is_kw(i, 0, "DECLARE") || self.is_sym(i, 0, "<<") {
            return self.block_statement(i);
        }
        if self.is_kw(i, 0, "CALL") {
            let (b, i) = self.call_statement(i)?;
            return Ok((Statement::Block(b), i));
        }
        if self.is_kw(i, 0, "CREATE") && (self.is_kw(i, 1, "PROCEDURE") || self.is_kw(i, 1, "FUNCTION") || (self.is_kw(i, 1, "OR") && self.is_kw(i, 2, "REPLACE"))) {
            return self.create_statement(i + 1);
        }
        if self.is_kw(i, 0, "DROP") && (self.is_kw(i, 1, "PROCEDURE") || self.is_kw(i, 1, "FUNCTION")) {
            return self.drop_routine(i + 1);
        }
        if self.is_kw(i, 0, "CREATE") && (self.is_kw(i, 1, "INDEX") || (self.is_kw(i, 1, "UNIQUE") && self.is_kw(i, 2, "INDEX"))) {
            return self.create_index(i + 1);
        }
        if self.is_kw(i, 0, "CREATE") && self.is_kw(i, 1, "TABLE") {
            let (t, i) = self.create_table(i + 2)?;
            return Ok((Statement::CreateTable(t), i));
        }
        self.ddl(i)
    }

    /// A block with its semicolon.
    #[verifier::spinoff_prover]
    #[verifier::rlimit(100)]
    pub(crate) fn block_statement(&self, i: usize) -> (r: Result<(Statement, usize), OraError>)
        requires
            self.inv(),
            i <= self.tokens@.len(),
        ensures
            match r {
                Ok((v, j)) => block_statement(self.source(), i as int) == Ok::<(tree::Statement, int), Failure>((ast::statement_tree(v), j as int)) && i + 1 <= j <= self.tokens@.len(),
                Err(e) => block_statement(self.source(), i as int) == Err::<(tree::Statement, int), Failure>(e@),
            },
        decreases self.tokens@.len() - i, 44int,
    {
        let (b, i) = self.block(i)?;
        if !self.is_sym(i, 0, ";") {
            return Err(expected_error(";"));
        }
        let i: usize = i + 1;
        Ok((Statement::Block(b), i))
    }

    /// A procedure or function with its semicolon, behind CREATE.
    #[verifier::spinoff_prover]
    #[verifier::rlimit(100)]
    pub(crate) fn create_statement(&self, i: usize) -> (r: Result<(Statement, usize), OraError>)
        requires
            self.inv(),
            i <= self.tokens@.len(),
        ensures
            match r {
                Ok((v, j)) => create_statement(self.source(), i as int) == Ok::<(tree::Statement, int), Failure>((ast::statement_tree(v), j as int)) && i + 1 <= j <= self.tokens@.len(),
                Err(e) => create_statement(self.source(), i as int) == Err::<(tree::Statement, int), Failure>(e@),
            },
        decreases self.tokens@.len() - i, 45int,
    {
        let (s, i) = self.create_routine(i)?;
        if !self.is_sym(i, 0, ";") {
            return Err(expected_error(";"));
        }
        let i: usize = i + 1;
        Ok((s, i))
    }

    /// A statement that defines, or any other.
    #[verifier::spinoff_prover]
    #[verifier::rlimit(100)]
    pub(crate) fn ddl(&self, i: usize) -> (r: Result<(Statement, usize), OraError>)
        requires
            self.inv(),
            i <= self.tokens@.len(),
        ensures
            match r {
                Ok((v, j)) => ddl(self.source(), i as int) == Ok::<(tree::Statement, int), Failure>((ast::statement_tree(v), j as int)) && i + 1 <= j <= self.tokens@.len(),
                Err(e) => ddl(self.source(), i as int) == Err::<(tree::Statement, int), Failure>(e@),
            },
        decreases self.tokens@.len() - i, 44int,
    {
        if self.is_kw(i, 0, "TRUNCATE") {
            let i: usize = i + 1;
            if !self.is_kw(i, 0, "TABLE") {
                return Err(OraError::new(905, "missing keyword"));
            }
            let i: usize = i + 1;
            let (name, i) = self.object_name(i)?;
            return Ok((Statement::Truncate { name }, i));
        }
        if self.is_kw(i, 0, "DROP") && self.is_kw(i, 1, "TABLE") {
            let i: usize = i + 2;
            let (name, i) = self.object_name(i)?;
            return Ok((Statement::DropTable { name }, i));
        }
        if self.is_kw(i, 0, "DROP") && self.is_kw(i, 1, "INDEX") {
            let i: usize = i + 2;
            let (name, i) = self.object_name(i)?;
            return Ok((Statement::DropIndex { name }, i));
        }
        if self.is_kw(i, 0, "DROP") && self.is_kw(i, 1, "SEQUENCE") {
            let i: usize = i + 2;
            let (name, i) = self.object_name(i)?;
            return Ok((Statement::DropSequence { name }, i));
        }
        if self.is_kw(i, 0, "ALTER") && self.is_kw(i, 1, "SESSION") {
            let i: usize = i + 2;
            if !self.is_kw(i, 0, "SET") {
                return Err(OraError::new(905, "missing keyword"));
            }
            let i: usize = i + 1;
            let (name, i) = self.ident(i)?;
            if !self.is_sym(i, 0, "=") {
                return Err(OraError::new(927, "missing equal sign"));
            }
            let i: usize = i + 1;
            let (value, i) = self.setting(i)?;
            return Ok((Statement::AlterSession { name, value }, i));
        }
        self.statement(i)
    }

    #[verifier::spinoff_prover]
    #[verifier::rlimit(100)]
    pub(crate) fn table_name(&self, i: usize) -> (r: Result<(String, usize), OraError>)
        requires
            self.inv(),
            i <= self.tokens@.len(),
        ensures
            match r {
                Ok((v, j)) => table_name(self.source(), i as int) == Ok::<(Seq<char>, int), Failure>((v@, j as int)) && i + 1 <= j <= self.tokens@.len(),
                Err(e) => table_name(self.source(), i as int) == Err::<(Seq<char>, int), Failure>(e@),
            },
        decreases self.tokens@.len() - i, 4int,
    {
        if self.plain {
            return self.ident(i);
        }
        self.object_name(i)
    }

    /// The name of an object; a schema in front of it is ignored.
    #[verifier::spinoff_prover]
    #[verifier::rlimit(100)]
    pub(crate) fn object_name(&self, i: usize) -> (r: Result<(String, usize), OraError>)
        requires
            self.inv(),
            i <= self.tokens@.len(),
        ensures
            match r {
                Ok((v, j)) => object_name(self.source(), i as int) == Ok::<(Seq<char>, int), Failure>((v@, j as int)) && i + 1 <= j <= self.tokens@.len(),
                Err(e) => object_name(self.source(), i as int) == Err::<(Seq<char>, int), Failure>(e@),
            },
        decreases self.tokens@.len() - i, 3int,
    {
        let (name, i) = self.dotted_name(i)?;
        Ok((last_part_of(&name), i))
    }

    #[verifier::spinoff_prover]
    #[verifier::rlimit(100)]
    pub(crate) fn exists_query(&self, i: usize) -> (r: Result<(Expr, usize), OraError>)
        requires
            self.inv(),
            i <= self.tokens@.len(),
        ensures
            match r {
                Ok((v, j)) => exists_query(self.source(), i as int) == Ok::<(tree::Expr, int), Failure>((ast::expr_tree(v), j as int)) && i + 1 <= j <= self.tokens@.len(),
                Err(e) => exists_query(self.source(), i as int) == Err::<(tree::Expr, int), Failure>(e@),
            },
        decreases self.tokens@.len() - i, 26int,
    {
        let (q, i) = self.query(i)?;
        if !self.is_sym(i, 0, ")") {
            return Err(OraError::new(907, "missing right parenthesis"));
        }
        let i: usize = i + 1;
        Ok((Expr::Exists(Box::new(q)), i))
    }

    /// What stands in brackets, behind the opening one.
    #[verifier::spinoff_prover]
    #[verifier::rlimit(100)]
    pub(crate) fn bracketed(&self, i: usize) -> (r: Result<(Expr, usize), OraError>)
        requires
            self.inv(),
            i <= self.tokens@.len(),
        ensures
            match r {
                Ok((v, j)) => bracketed(self.source(), i as int) == Ok::<(tree::Expr, int), Failure>((ast::expr_tree(v), j as int)) && i + 1 <= j <= self.tokens@.len(),
                Err(e) => bracketed(self.source(), i as int) == Err::<(tree::Expr, int), Failure>(e@),
            },
        decreases self.tokens@.len() - i, 26int,
    {
        if self.plain {
            let (e, i) = self.additive(i)?;
            if !self.is_sym(i, 0, ")") {
                return Err(OraError::new(907, "missing right parenthesis"));
            }
            let i: usize = i + 1;
            return Ok((e, i));
        }
        if self.is_kw(i, 0, "SELECT") {
            let (q, i) = self.query(i)?;
            if !self.is_sym(i, 0, ")") {
                return Err(OraError::new(907, "missing right parenthesis"));
            }
            let i: usize = i + 1;
            return Ok((Expr::Subquery(Box::new(q)), i));
        }
        let (e, i) = self.expr(i)?;
        if !self.is_sym(i, 0, ")") {
            return Err(OraError::new(907, "missing right parenthesis"));
        }
        let i: usize = i + 1;
        Ok((e, i))
    }

    /// A column, a variable, an attribute of a cursor or a call.
    #[verifier::spinoff_prover]
    #[verifier::rlimit(100)]
    pub(crate) fn named(&self, i: usize) -> (r: Result<(Expr, usize), OraError>)
        requires
            self.inv(),
            i <= self.tokens@.len(),
        ensures
            match r {
                Ok((v, j)) => named(self.source(), i as int) == Ok::<(tree::Expr, int), Failure>((ast::expr_tree(v), j as int)) && i + 1 <= j <= self.tokens@.len(),
                Err(e) => named(self.source(), i as int) == Err::<(tree::Expr, int), Failure>(e@),
            },
        decreases self.tokens@.len() - i, 6int,
    {
        if self.is_ident(i, 0) && self.is_sym(i, 1, "%") && self.is_ident(i, 2) {
            let table = Some(self.name_and_percent(i));
            let name = self.name(i + 2);
            let i: usize = i + 3;
            return Ok((Expr::Column { table, name }, i));
        }
        let (name, i) = self.dotted_name(i)?;
        if self.is_sym(i, 0, "(") {
            return self.function(i + 1, name);
        }
        Ok((column_named(&name), i))
    }

    #[verifier::spinoff_prover]
    #[verifier::rlimit(100)]
    pub(crate) fn escape_clause(&self, i: usize) -> (r: Result<(Option<Expr>, usize), OraError>)
        requires
            self.inv(),
            i <= self.tokens@.len(),
        ensures
            match r {
                Ok((v, j)) => escape_clause(self.source(), i as int) == Ok::<(Option<tree::Expr>, int), Failure>((ast::opt_expr_tree(v), j as int)) && i <= j <= self.tokens@.len(),
                Err(e) => escape_clause(self.source(), i as int) == Err::<(Option<tree::Expr>, int), Failure>(e@),
            },
        decreases self.tokens@.len() - i, 0int,
    {
        if !self.is_kw(i, 0, "ESCAPE") {
            return Ok((None, i));
        }
        let (v, i) = self.additive(i + 1)?;
        Ok((Some(v), i))
    }

    #[verifier::spinoff_prover]
    #[verifier::rlimit(100)]
    pub(crate) fn case_expr_operand(&self, i: usize) -> (r: Result<(Option<Expr>, usize), OraError>)
        requires
            self.inv(),
            i <= self.tokens@.len(),
        ensures
            match r {
                Ok((v, j)) => case_expr_operand(self.source(), i as int) == Ok::<(Option<tree::Expr>, int), Failure>((ast::opt_expr_tree(v), j as int)) && i <= j <= self.tokens@.len(),
                Err(e) => case_expr_operand(self.source(), i as int) == Err::<(Option<tree::Expr>, int), Failure>(e@),
            },
        decreases self.tokens@.len() - i, 21int,
    {
        if !!self.is_kw(i, 0, "WHEN") {
            return Ok((None, i));
        }
        self.case_operand(i)
    }

    #[verifier::spinoff_prover]
    #[verifier::rlimit(100)]
    pub(crate) fn else_clause(&self, i: usize) -> (r: Result<(Option<Expr>, usize), OraError>)
        requires
            self.inv(),
            i <= self.tokens@.len(),
        ensures
            match r {
                Ok((v, j)) => else_clause(self.source(), i as int) == Ok::<(Option<tree::Expr>, int), Failure>((ast::opt_expr_tree(v), j as int)) && i <= j <= self.tokens@.len(),
                Err(e) => else_clause(self.source(), i as int) == Err::<(Option<tree::Expr>, int), Failure>(e@),
            },
        decreases self.tokens@.len() - i, 0int,
    {
        if !self.is_kw(i, 0, "ELSE") {
            return Ok((None, i));
        }
        let (v, i) = self.expr(i + 1)?;
        Ok((Some(v), i))
    }

    #[verifier::spinoff_prover]
    #[verifier::rlimit(100)]
    pub(crate) fn select_into_of_select(&self, i: usize, into_ok: bool) -> (r: Result<(Option<Vec<Expr>>, usize), OraError>)
        requires
            self.inv(),
            i <= self.tokens@.len(),
        ensures
            match r {
                Ok((v, j)) => select_into_of_select(self.source(), i as int, into_ok) == Ok::<(Option<Seq<tree::Expr>>, int), Failure>((ast::opt_exprs_tree(v), j as int)) && i <= j <= self.tokens@.len(),
                Err(e) => select_into_of_select(self.source(), i as int, into_ok) == Err::<(Option<Seq<tree::Expr>>, int), Failure>(e@),
            },
        decreases self.tokens@.len() - i, 0int,
    {
        if !(into_ok && self.is_kw(i, 0, "INTO")) {
            return Ok((None, i));
        }
        let (v, i) = self.target_list(i + 1, ast::no_exprs())?;
        Ok((Some(v), i))
    }

    #[verifier::spinoff_prover]
    #[verifier::rlimit(100)]
    pub(crate) fn alias_clause(&self, i: usize) -> (r: Result<(Option<String>, usize), OraError>)
        requires
            self.inv(),
            i <= self.tokens@.len(),
        ensures
            match r {
                Ok((v, j)) => alias_clause(self.source(), i as int) == Ok::<(Option<Seq<char>>, int), Failure>((ast::opt_text_tree(v), j as int)) && i <= j <= self.tokens@.len(),
                Err(e) => alias_clause(self.source(), i as int) == Err::<(Option<Seq<char>>, int), Failure>(e@),
            },
        decreases self.tokens@.len() - i, 0int,
    {
        if !(!self.plain && self.alias_here(i)) {
            return Ok((None, i));
        }
        let (v, i) = self.ident(i)?;
        Ok((Some(v), i))
    }

    #[verifier::spinoff_prover]
    #[verifier::rlimit(100)]
    pub(crate) fn where_clause(&self, i: usize) -> (r: Result<(Option<Expr>, usize), OraError>)
        requires
            self.inv(),
            i <= self.tokens@.len(),
        ensures
            match r {
                Ok((v, j)) => where_clause(self.source(), i as int) == Ok::<(Option<tree::Expr>, int), Failure>((ast::opt_expr_tree(v), j as int)) && i <= j <= self.tokens@.len(),
                Err(e) => where_clause(self.source(), i as int) == Err::<(Option<tree::Expr>, int), Failure>(e@),
            },
        decreases self.tokens@.len() - i, 0int,
    {
        if !(!self.plain && self.is_kw(i, 0, "WHERE")) {
            return Ok((None, i));
        }
        let (v, i) = self.expr(i + 1)?;
        Ok((Some(v), i))
    }

    #[verifier::spinoff_prover]
    #[verifier::rlimit(100)]
    pub(crate) fn alias_clause_of_update(&self, i: usize) -> (r: Result<(Option<String>, usize), OraError>)
        requires
            self.inv(),
            i <= self.tokens@.len(),
        ensures
            match r {
                Ok((v, j)) => alias_clause_of_update(self.source(), i as int) == Ok::<(Option<Seq<char>>, int), Failure>((ast::opt_text_tree(v), j as int)) && i <= j <= self.tokens@.len(),
                Err(e) => alias_clause_of_update(self.source(), i as int) == Err::<(Option<Seq<char>>, int), Failure>(e@),
            },
        decreases self.tokens@.len() - i, 0int,
    {
        if !self.alias_here(i) {
            return Ok((None, i));
        }
        let (v, i) = self.ident(i)?;
        Ok((Some(v), i))
    }

    #[verifier::spinoff_prover]
    #[verifier::rlimit(100)]
    pub(crate) fn where_clause_of_update(&self, i: usize) -> (r: Result<(Option<Expr>, usize), OraError>)
        requires
            self.inv(),
            i <= self.tokens@.len(),
        ensures
            match r {
                Ok((v, j)) => where_clause_of_update(self.source(), i as int) == Ok::<(Option<tree::Expr>, int), Failure>((ast::opt_expr_tree(v), j as int)) && i <= j <= self.tokens@.len(),
                Err(e) => where_clause_of_update(self.source(), i as int) == Err::<(Option<tree::Expr>, int), Failure>(e@),
            },
        decreases self.tokens@.len() - i, 0int,
    {
        if !self.is_kw(i, 0, "WHERE") {
            return Ok((None, i));
        }
        let (v, i) = self.expr(i + 1)?;
        Ok((Some(v), i))
    }
}

/// Whether a statement starts like PL/SQL, where a bind's name counts.
pub open spec fn is_plsql(lex: Seq<Lexeme>) -> bool {
    lex.len() > 0 && match lex[0].word {
        Word::Ident(w) => w == "BEGIN"@ || w == "DECLARE"@ || w == "CALL"@ || w == "CREATE"@,
        Word::Symbol(s) => s == "<<"@,
        _ => false,
    }
}

/// What follows a statement: nothing.
pub open spec fn ended<A>(p: Source, r: Result<(A, int), Failure>) -> Result<A, Failure> {
    match r {
        Err(e) => Err(e),
        Ok((a, i)) => if i >= p.lex.len() {
            Ok(a)
        } else if is_sym(p, i, ";"@) {
            Err(error::failure(911, "invalid character"@))
        } else {
            Err(error::failure(933, "SQL command not properly ended"@))
        },
    }
}

/// The statement that a text is, when it is a query of DUAL.
#[verifier::opaque]
pub open spec fn parsed(sql: Seq<char>) -> Result<tree::Statement, Failure> {
    match lexer::lexed(sql) {
        Err(e) => Err(e),
        Ok(lex) => {
            let p = Source { lex, sql, by_name: false, plain: true };
            if is_kw(p, 0, "SELECT"@) {
                match ended(p, query(p, 0)) {
                    Ok(q) => Ok(tree::Statement::Query(q)),
                    Err(e) => Err(e),
                }
            } else {
                Err(error::failure(900, "invalid SQL statement"@))
            }
        },
    }
}

/// The statement that a text is, and how many binds it takes.
#[verifier::opaque]
pub open spec fn understood(sql: Seq<char>) -> Result<(tree::Statement, int), Failure> {
    match lexer::lexed(sql) {
        Err(e) => Err(e),
        Ok(lex) => {
            let p = Source { lex, sql, by_name: is_plsql(lex), plain: false };
            match ended(p, top_statement(p, 0)) {
                Ok(s) => Ok((s, binds_in(p))),
                Err(e) => Err(e),
            }
        },
    }
}

proof fn names_are_distinct(lex: Seq<Lexeme>, n: int)
    requires
        0 <= n,
    ensures
        bind_names(lex, n).len() <= n,
        bind_names(lex, n).no_duplicates(),
    decreases n,
{
    if n > 0 {
        names_are_distinct(lex, n - 1);
    }
}

/// Names stay where they are as more are found.
proof fn names_grow(lex: Seq<Lexeme>, m: int, n: int, name: Seq<char>)
    requires
        0 <= m <= n,
        bind_names(lex, m).contains(name),
    ensures
        bind_names(lex, n).contains(name),
        bind_names(lex, n).index_of(name) == bind_names(lex, m).index_of(name),
    decreases n - m,
{
    if m < n {
        names_grow(lex, m, n - 1, name);
        names_are_distinct(lex, n);
        names_are_distinct(lex, n - 1);
        let before = bind_names(lex, n - 1);
        let after = bind_names(lex, n);
        let k = before.index_of(name);
        assert(before[k] == name);
        assert(after[k] == name);
        index_is_first(after, name, k);
    }
}

proof fn index_is_first(s: Seq<Seq<char>>, x: Seq<char>, k: int)
    requires
        0 <= k < s.len(),
        s[k] == x,
        s.no_duplicates(),
    ensures
        s.index_of(x) == k,
        s.contains(x),
{
    assert(s.contains(x));
    let first = s.index_of(x);
    assert(s[first] == x);
}

fn index_of_name(names: &Vec<String>, name: &str) -> (r: Option<usize>)
    requires
        ast::texts_tree(*names).no_duplicates(),
    ensures
        match r {
            Some(k) => k < names@.len() && ast::texts_tree(*names).index_of(name@) == k
                && ast::texts_tree(*names).contains(name@),
            None => !ast::texts_tree(*names).contains(name@),
        },
{
    let ghost all = ast::texts_tree(*names);
    for k in 0..names.len()
        invariant
            all == ast::texts_tree(*names),
            all.no_duplicates(),
            forall|j: int| 0 <= j < k ==> #[trigger] all[j] != name@,
    {
        if text::same(&names[k], name) {
            proof {
                index_is_first(all, name@, k as int);
            }
            return Some(k);
        }
    }
    None
}

/// The position of every bind, and how many there are.
fn number_binds(tokens: &Vec<Token>, by_name: bool) -> (r: (Vec<usize>, usize))
    ensures
        r.0@.len() == tokens@.len(),
        forall|sql: Seq<char>, plain: bool, i: int|
            #![trigger bind_at(Source { lex: lexer::lexemes(tokens@), sql, by_name, plain }, i)]
            0 <= i < tokens@.len() && tokens@[i].tok is Bind ==> r.0@[i] == bind_at(
                Source { lex: lexer::lexemes(tokens@), sql, by_name, plain },
                i,
            ),
        forall|sql: Seq<char>, plain: bool|
            #![trigger binds_in(Source { lex: lexer::lexemes(tokens@), sql, by_name, plain })]
            r.1 == binds_in(Source { lex: lexer::lexemes(tokens@), sql, by_name, plain }),
{
    let ghost lex = lexer::lexemes(tokens@);
    let mut names: Vec<String> = ast::no_texts();
    let mut count: usize = 0;
    let mut out: Vec<usize> = Vec::new();
    let total: usize = tokens.len();
    let mut i: usize = 0;
    while i < total
        invariant
            i <= total == tokens@.len(),
            lex == lexer::lexemes(tokens@),
            out@.len() == i,
            count <= i,
            count == bind_count(lex, i as int),
            ast::texts_tree(names) == bind_names(lex, i as int),
            forall|k: int|
                0 <= k < i && tokens@[k].tok is Bind ==> #[trigger] out@[k] == if by_name {
                    bind_names(lex, k + 1).index_of(lex[k].word->Bind_0)
                } else {
                    bind_count(lex, k)
                },
        decreases total - i,
    {
        proof {
            names_are_distinct(lex, i as int);
            names_are_distinct(lex, i + 1);
        }
        assert(lex[i as int].word == tokens@[i as int].tok@);
        let mut number: usize = 0;
        match &tokens[i].tok {
            Tok::Bind(name) => {
                let place = match index_of_name(&names, name) {
                    Some(k) => {
                        k
                    },
                    None => {
                        let k: usize = names.len();
                        let ghost before = names;
                        names.push(name.clone());
                        assert(ast::texts_tree(names) =~= ast::texts_tree(before).push(name@));
                        proof {
                            index_is_first(ast::texts_tree(names), name@, k as int);
                        }
                        k
                    },
                };
                number = if by_name {
                    place
                } else {
                    count
                };
                count = count + 1;
            },
            _ => {},
        }
        out.push(number);
        i = i + 1;
    }
    let used: usize = if by_name {
        names.len()
    } else {
        count
    };
    (out, used)
}

/// A parser of tokens, and how many binds they hold.
fn parser_of(sql: &str, tokens: Vec<Token>, by_name: bool, plain: bool) -> (r: (Parser<'_>, usize))
    ensures
        r.0.inv(),
        r.0.source() == (Source { lex: lexer::lexemes(tokens@), sql: sql@, by_name, plain }),
        r.0.tokens@ == tokens@,
        r.1 == binds_in(r.0.source()),
{
    let (binds, used) = number_binds(&tokens, by_name);
    let total: usize = tokens.len();
    let p = Parser { sql, tokens, binds, by_name, plain };
    proof {
        reveal(Parser::source);
        reveal(Parser::numbered);
    }
    (p, used)
}

/// Parses a query of DUAL.
pub fn parse(sql: &str) -> (r: Result<Statement, OraError>)
    ensures
        match r {
            Ok(s) => parsed(sql@) == Ok::<tree::Statement, Failure>(s@),
            Err(e) => error::failed(parsed(sql@), e),
        },
{
    proof {
        reveal(parsed);
    }
    let tokens = lexer::tokenize(sql)?;
    let total: usize = tokens.len();
    let (p, _) = parser_of(sql, tokens, false, true);
    if !p.is_kw(0, 0, "SELECT") {
        return Err(OraError::new(900, "invalid SQL statement"));
    }
    let (q, i) = p.query(0)?;
    if i >= total {
        return Ok(Statement::Query(q));
    }
    if p.is_sym(i, 0, ";") {
        return Err(OraError::new(911, "invalid character"));
    }
    Err(OraError::new(933, "SQL command not properly ended"))
}

/// A statement and how many binds it takes.
pub struct Parsed {
    pub stmt: Statement,
    pub binds: usize,
}

/// Parses one SQL statement or PL/SQL block.
#[verifier::spinoff_prover]
#[verifier::rlimit(80)]
pub fn parse_statement(sql: &str) -> (r: Result<Parsed, OraError>)
    ensures
        match r {
            Ok(s) => understood(sql@) == Ok::<(tree::Statement, int), Failure>(
                (s.stmt@, s.binds as int),
            ),
            Err(e) => error::failed(understood(sql@), e),
        },
{
    proof {
        reveal(understood);
    }
    let tokens = lexer::tokenize(sql)?;
    let total: usize = tokens.len();
    assert(total > 0 ==> lexer::lexemes(tokens@)[0].word == tokens@[0].tok@);
    let by_name = if total > 0 {
        match &tokens[0].tok {
            Tok::Ident(w) => text::same(w, "BEGIN") || text::same(w, "DECLARE") || text::same(
                w,
                "CALL",
            ) || text::same(w, "CREATE"),
            Tok::Symbol(s) => text::same(s, "<<"),
            _ => false,
        }
    } else {
        false
    };
    let (p, used) = parser_of(sql, tokens, by_name, false);
    let (stmt, i) = p.top_statement(0)?;
    if i >= total {
        return Ok(Parsed { stmt, binds: used });
    }
    if p.is_sym(i, 0, ";") {
        return Err(OraError::new(911, "invalid character"));
    }
    Err(OraError::new(933, "SQL command not properly ended"))
}

/// The number behind the highest bind in an expression.
pub open spec fn bind_limit(e: tree::Expr) -> int
    decreases e,
{
    match e {
        tree::Expr::Bind(i) => if i < usize::MAX {
            i + 1
        } else {
            usize::MAX as int
        },
        tree::Expr::Neg(a) => bind_limit(*a),
        tree::Expr::Binary(_, a, b) => number::max(bind_limit(*a), bind_limit(*b)),
        _ => 0,
    }
}

/// The number behind the highest bind in the first `n` items.
pub open spec fn items_limit(items: Seq<tree::SelectItem>, n: int) -> int
    decreases n,
{
    if n <= 0 || n > items.len() {
        0
    } else {
        number::max(
            items_limit(items, n - 1),
            match items[n - 1] {
                tree::SelectItem::Expr { expr, .. } => bind_limit(expr),
                _ => 0,
            },
        )
    }
}

/// How many bind placeholders a select has.
pub open spec fn bind_total(s: tree::Statement) -> int {
    match s {
        tree::Statement::Query(q) => match q.body {
            tree::SetExpr::Select(x) => items_limit(x.items, x.items.len() as int),
            _ => 0,
        },
        _ => 0,
    }
}

fn count_in(e: &Expr) -> (n: usize)
    ensures
        n == bind_limit(e@),
    decreases e,
{
    match e {
        Expr::Bind(i) => if *i < usize::MAX {
            *i + 1
        } else {
            usize::MAX
        },
        Expr::Neg(a) => count_in(a),
        Expr::Binary(_, a, b) => {
            let x = count_in(a);
            let y = count_in(b);
            if x > y {
                x
            } else {
                y
            }
        },
        _ => 0,
    }
}

/// Counts how many bind placeholders a statement has, in order of appearance.
pub fn count_binds(stmt: &Statement) -> (n: usize)
    ensures
        n == bind_total(stmt@),
{
    let items = match stmt {
        Statement::Query(q) => {
            assert(stmt@ == tree::Statement::Query(ast::query_tree(*q)));
            assert(q@.body == ast::set_expr_tree(q.body));
            match &q.body {
                SetExpr::Select(s) => {
                    assert(q@.body == tree::SetExpr::Select(Box::new(ast::select_tree(**s))));
                    assert(ast::select_tree(**s).items == ast::select_items_tree(s.items));
                    &s.items
                },
                _ => {
                    return 0;
                },
            }
        },
        _ => {
            return 0;
        },
    };
    let ghost all = ast::select_items_tree(*items);
    let mut most: usize = 0;
    for i in 0..items.len()
        invariant
            all == ast::select_items_tree(*items),
            most == items_limit(all, i as int),
    {
        assert(all[i as int] == items@[i as int]@);
        let n: usize = match &items[i] {
            SelectItem::Expr { expr, .. } => count_in(expr),
            _ => 0,
        };
        if n > most {
            most = n;
        }
    }
    most
}

} // verus!
