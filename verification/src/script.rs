//! Scripts of several statements, and which way binds go.

use vstd::prelude::*;
use vstd::string::*;

use crate::ast;
use crate::ast::{Expr, Statement};
use crate::error;
use crate::error::{Failure, OraError};
use crate::lexer;
use crate::lexer::{Lexeme, Tok, Token};
use crate::parser;
use crate::plsql::exec;
use crate::plsql::run;
use crate::text;
use crate::tree;

verus! {

/// Which way a bind goes.
#[derive(Debug, Clone, Copy, PartialEq, Eq, Structural)]
pub enum BindDir {
    In,
    /// A bind of a block: it may be read and set.
    InOut,
    /// A bind that a RETURNING clause fills.
    Returning,
}

/// The directions of `n` binds of which the first `k` RETURNING targets are known.
pub open spec fn directions(n: int, into: Seq<tree::Expr>, k: int) -> Seq<BindDir>
    decreases k,
{
    if k <= 0 || k > into.len() {
        Seq::new(n as nat, |i: int| BindDir::In)
    } else {
        let before = directions(n, into, k - 1);
        match into[k - 1] {
            tree::Expr::Bind(i) => if 0 <= i < before.len() {
                before.update(i, BindDir::Returning)
            } else {
                before
            },
            _ => before,
        }
    }
}

/// The directions of a statement's binds.
pub open spec fn directed(sql: Seq<char>) -> Result<Seq<BindDir>, Failure> {
    match parser::understood(sql) {
        Err(e) => Err(e),
        Ok((stmt, n)) => Ok(
            if stmt is Block {
                Seq::new(n as nat, |i: int| BindDir::InOut)
            } else {
                match exec::returning_of(stmt) {
                    Some(r) => directions(n, r.into, r.into.len() as int),
                    None => directions(n, Seq::empty(), 0),
                }
            },
        ),
    }
}

fn filled(n: usize, d: BindDir) -> (r: Vec<BindDir>)
    ensures
        r@ == Seq::new(n as nat, |i: int| d),
{
    let mut out: Vec<BindDir> = Vec::new();
    for i in 0..n
        invariant
            out@.len() == i,
            forall|k: int| 0 <= k < i ==> #[trigger] out@[k] == d,
    {
        out.push(d);
    }
    assert(out@ =~= Seq::new(n as nat, |i: int| d));
    out
}

/// Which way each bind of a statement goes, by position.
pub fn bind_directions(sql: &str) -> (r: Result<Vec<BindDir>, OraError>)
    ensures
        match r {
            Ok(d) => directed(sql@) == Ok::<Seq<BindDir>, Failure>(d@),
            Err(e) => error::failed(directed(sql@), e),
        },
{
    let p = parser::parse_statement(sql)?;
    if let Statement::Block(_) = &p.stmt {
        return Ok(filled(p.binds, BindDir::InOut));
    }
    match run::returning(&p.stmt) {
        Some(x) => {
            assert(x@.into == ast::exprs_tree(x.into));
            assert(x@.into.len() == x.into@.len());
            Ok(mark_returning(p.binds, &x.into))
        },
        None => Ok(filled(p.binds, BindDir::In)),
    }
}

fn mark_returning(n: usize, into: &Vec<Expr>) -> (r: Vec<BindDir>)
    ensures
        r@ == directions(n as int, ast::exprs_tree(*into), into@.len() as int),
{
    let ghost all = ast::exprs_tree(*into);
    let mut out = filled(n, BindDir::In);
    for k in 0..into.len()
        invariant
            all == ast::exprs_tree(*into),
            out@ == directions(n as int, all, k as int),
    {
        assert(all[k as int] == into@[k as int]@);
        if let Expr::Bind(i) = &into[k] {
            if *i < out.len() {
                out.set(*i, BindDir::Returning);
            }
        }
    }
    out
}

/// Whether a statement is a unit of PL/SQL, whose semicolons are its own.
pub open spec fn starts_unit(lex: Seq<Lexeme>) -> bool {
    let p = parser::Source { lex, sql: Seq::empty(), by_name: false, plain: false };
    let k = if parser::is_kw(p, 1, "OR"@) && parser::is_kw(p, 2, "REPLACE"@) {
        3int
    } else {
        1
    };
    parser::is_kw(p, 0, "BEGIN"@) || parser::is_kw(p, 0, "DECLARE"@) || parser::is_sym(
        p,
        0,
        "<<"@,
    ) || (parser::is_kw(p, 0, "CREATE"@) && (parser::is_kw(p, k, "PROCEDURE"@) || parser::is_kw(
        p,
        k,
        "FUNCTION"@,
    )))
}

pub open spec fn is_unit(piece: Seq<char>) -> bool {
    match lexer::lexed(piece) {
        Ok(lex) => starts_unit(lex),
        Err(_) => false,
    }
}

fn is_word(t: &Vec<Token>, i: usize, w: &str) -> (r: bool)
    ensures
        r == parser::is_kw(
            parser::Source {
                lex: lexer::lexemes(t@),
                sql: Seq::empty(),
                by_name: false,
                plain: false,
            },
            i as int,
            w@,
        ),
{
    if i >= t.len() {
        return false;
    }
    match &t[i].tok {
        Tok::Ident(s) => text::same(s, w),
        _ => false,
    }
}

fn unit(piece: &[char]) -> (r: bool)
    ensures
        r == is_unit(piece@),
{
    let t = match lexer::tokenize(&text::string_of(piece)) {
        Ok(t) => t,
        Err(_) => {
            return false;
        },
    };
    let k: usize = if is_word(&t, 1, "OR") && is_word(&t, 2, "REPLACE") {
        3
    } else {
        1
    };
    if is_word(&t, 0, "BEGIN") || is_word(&t, 0, "DECLARE") {
        return true;
    }
    if t.len() > 0 {
        if let Tok::Symbol(s) = &t[0].tok {
            if text::same(s, "<<") {
                return true;
            }
        }
    }
    is_word(&t, 0, "CREATE") && (is_word(&t, k, "PROCEDURE") || is_word(&t, k, "FUNCTION"))
}

/// Where the line ends that `i` is in.
pub open spec fn line_end(s: Seq<char>, i: int) -> int
    decreases s.len() - i,
{
    if 0 <= i < s.len() && s[i] != '\n' {
        line_end(s, i + 1)
    } else {
        i
    }
}

fn find_line_end(s: &Vec<char>, i: usize) -> (r: usize)
    requires
        i <= s@.len(),
    ensures
        r == line_end(s@, i as int),
        i <= r <= s@.len(),
{
    let mut k: usize = i;
    while k < s.len() && s[k] != '\n'
        invariant
            i <= k <= s@.len(),
            line_end(s@, i as int) == line_end(s@, k as int),
        decreases s@.len() - k,
    {
        k = k + 1;
    }
    k
}

/// Whether a line that starts at `i` holds a slash alone.
pub open spec fn is_slash_line(s: Seq<char>, i: int) -> bool {
    (i == 0 || (0 < i <= s.len() && s[i - 1] == '\n')) && 0 <= i <= line_end(s, i) <= s.len()
        && text::trimmed(s.subrange(i, line_end(s, i))) == seq!['/']
}

/// Pieces with one more, unless it is blank.
pub open spec fn with_piece(pieces: Seq<Seq<char>>, piece: Seq<char>) -> Seq<Seq<char>> {
    let t = text::trimmed(piece);
    if t.len() == 0 {
        pieces
    } else {
        pieces.push(t)
    }
}

/// The end of a comment in slashes and stars, from behind its start on.
pub open spec fn block_end(s: Seq<char>, i: int) -> int
    decreases s.len() - i,
{
    if i < 0 || i + 1 >= s.len() {
        s.len() as int
    } else if s[i] == '*' && s[i + 1] == '/' {
        i + 2
    } else {
        block_end(s, i + 1)
    }
}

/// The end of the comment that starts at a place; the place itself when none does.
pub open spec fn comment_end(s: Seq<char>, i: int) -> int {
    if i < 0 || i + 1 >= s.len() {
        i
    } else if s[i] == '-' && s[i + 1] == '-' {
        line_end(s, i)
    } else if s[i] == '/' && s[i + 1] == '*' {
        block_end(s, i + 2)
    } else {
        i
    }
}

fn find_block_end(s: &Vec<char>, i: usize) -> (r: usize)
    requires
        i <= s@.len(),
    ensures
        r == block_end(s@, i as int),
        i <= r <= s@.len(),
{
    let total: usize = s.len();
    let mut j: usize = i;
    while j < total && total - j >= 2
        invariant
            i <= j <= total == s@.len(),
            block_end(s@, i as int) == block_end(s@, j as int),
        decreases total - j,
    {
        if s[j] == '*' && s[j + 1] == '/' {
            return j + 2;
        }
        j = j + 1;
    }
    total
}

fn find_comment_end(s: &Vec<char>, i: usize) -> (r: usize)
    requires
        i < s@.len(),
    ensures
        r == comment_end(s@, i as int),
        i <= r <= s@.len(),
{
    let total: usize = s.len();
    if total - i < 2 {
        return i;
    }
    if s[i] == '-' && s[i + 1] == '-' {
        find_line_end(s, i)
    } else if s[i] == '/' && s[i + 1] == '*' {
        find_block_end(s, i + 2)
    } else {
        i
    }
}

/// The statements of a script from `i` on, where the current one starts at `start`.
/// A comment ends no statement, and one in front of a statement is left out.
pub open spec fn pieces_from(
    s: Seq<char>,
    start: int,
    i: int,
    quoted: bool,
    pieces: Seq<Seq<char>>,
) -> Seq<Seq<char>>
    decreases s.len() - i,
{
    if i < 0 || start < 0 || i < start || i >= s.len() {
        with_piece(pieces, s.skip(start))
    } else if !quoted && is_slash_line(s, i) {
        let e = if line_end(s, i) <= i {
            i + 1
        } else {
            line_end(s, i)
        };
        pieces_from(s, e, e, false, with_piece(pieces, s.subrange(start, i)))
    } else if !quoted && i < comment_end(s, i) <= s.len() {
        let e = comment_end(s, i);
        pieces_from(
            s,
            if text::trimmed(s.subrange(start, i)).len() == 0 {
                e
            } else {
                start
            },
            e,
            false,
            pieces,
        )
    } else if s[i] == '\'' {
        pieces_from(s, start, i + 1, !quoted, pieces)
    } else if s[i] == ';' && !quoted && !is_unit(s.subrange(start, i)) {
        pieces_from(s, i + 1, i + 1, false, with_piece(pieces, s.subrange(start, i)))
    } else {
        pieces_from(s, start, i + 1, quoted, pieces)
    }
}

fn push_piece(pieces: &mut Vec<String>, piece: &[char])
    ensures
        ast::texts_tree(*final(pieces)) == with_piece(ast::texts_tree(*old(pieces)), piece@),
{
    let t = text::trim(&text::string_of(piece));
    if t.len() > 0 {
        let ghost before = *pieces;
        let s = text::string_of(&t);
        pieces.push(s);
        assert(ast::texts_tree(*pieces) =~= ast::texts_tree(before).push(s@));
    }
}

/// Splits a script into its statements. Statements are separated by `;` or a line holding only
/// `/`; the semicolons of a PL/SQL unit are its own.
pub fn split_script(script: &str) -> (r: Vec<String>)
    ensures
        ast::texts_tree(r) == pieces_from(script@, 0, 0, false, Seq::empty()),
{
    let s = text::chars_of(script);
    let total: usize = s.len();
    let mut pieces: Vec<String> = ast::no_texts();
    let mut start: usize = 0;
    let mut i: usize = 0;
    let mut quoted = false;
    while i < total
        invariant
            start <= i <= total == s@.len(),
            s@ == script@,
            pieces_from(script@, 0, 0, false, Seq::empty()) == pieces_from(
                s@,
                start as int,
                i as int,
                quoted,
                ast::texts_tree(pieces),
            ),
        decreases total - i,
    {
        let e = find_line_end(&s, i);
        let mut slash = false;
        if !quoted && (i == 0 || s[i - 1] == '\n') {
            let line = text::slice(&s, i, e);
            let t = text::trim(&text::string_of(&line));
            if t.len() == 1 && t[0] == '/' {
                assert(t@ =~= seq!['/']);
                slash = true;
            }
            assert(slash == (t@ == seq!['/']));
        }
        if slash {
            let piece = text::slice(&s, start, i);
            push_piece(&mut pieces, &piece);
            i = if e <= i {
                i + 1
            } else {
                e
            };
            start = i;
        } else if !quoted && find_comment_end(&s, i) > i {
            let behind: usize = find_comment_end(&s, i);
            let piece = text::slice(&s, start, i);
            if text::trim(&text::string_of(&piece)).len() == 0 {
                start = behind;
            }
            i = behind;
        } else if s[i] == '\'' {
            quoted = !quoted;
            i = i + 1;
        } else if s[i] == ';' && !quoted {
            let piece = text::slice(&s, start, i);
            if unit(&piece) {
                i = i + 1;
            } else {
                push_piece(&mut pieces, &piece);
                i = i + 1;
                start = i;
            }
        } else {
            i = i + 1;
        }
    }
    let rest = text::slice(&s, start, total);
    assert(rest@ =~= s@.skip(start as int));
    push_piece(&mut pieces, &rest);
    pieces
}

} // verus!
