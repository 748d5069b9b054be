//! Tokenizer for Oracle SQL.

use vstd::prelude::*;
use vstd::string::*;
use vstd::utf8::*;

use crate::error;
use crate::error::{Failure, OraError};
use crate::strings;
use crate::text;

verus! {

#[derive(Debug, PartialEq, Eq)]
pub enum Tok {
    /// Unquoted identifier or keyword, uppercased.
    Ident(String),
    /// `"Quoted"` identifier, case preserved.
    QuotedIdent(String),
    Number(String),
    Str(String),
    /// `:name` or `:1`.
    Bind(String),
    Symbol(&'static str),
}

/// What a token is.
pub enum Word {
    Ident(Seq<char>),
    Quoted(Seq<char>),
    Number(Seq<char>),
    Str(Seq<char>),
    Bind(Seq<char>),
    Symbol(Seq<char>),
}

impl View for Tok {
    type V = Word;

    open spec fn view(&self) -> Word {
        match self {
            Tok::Ident(s) => Word::Ident(s@),
            Tok::QuotedIdent(s) => Word::Quoted(s@),
            Tok::Number(s) => Word::Number(s@),
            Tok::Str(s) => Word::Str(s@),
            Tok::Bind(s) => Word::Bind(s@),
            Tok::Symbol(s) => Word::Symbol(s@),
        }
    }
}

impl Clone for Tok {
    fn clone(&self) -> (r: Tok)
        ensures
            r@ == self@,
    {
        match self {
            Tok::Ident(s) => Tok::Ident(s.clone()),
            Tok::QuotedIdent(s) => Tok::QuotedIdent(s.clone()),
            Tok::Number(s) => Tok::Number(s.clone()),
            Tok::Str(s) => Tok::Str(s.clone()),
            Tok::Bind(s) => Tok::Bind(s.clone()),
            Tok::Symbol(s) => Tok::Symbol(*s),
        }
    }
}

#[derive(Debug)]
pub struct Token {
    pub tok: Tok,
    /// Byte offsets into the statement text.
    pub start: usize,
    pub end: usize,
}

/// What a token is and where it stands.
pub struct Lexeme {
    pub word: Word,
    pub start: int,
    pub end: int,
}

impl View for Token {
    type V = Lexeme;

    open spec fn view(&self) -> Lexeme {
        Lexeme { word: self.tok@, start: self.start as int, end: self.end as int }
    }
}

impl Clone for Token {
    fn clone(&self) -> (r: Token)
        ensures
            r@ == self@,
    {
        Token { tok: self.tok.clone(), start: self.start, end: self.end }
    }
}

/// What tokens are.
pub open spec fn lexemes(t: Seq<Token>) -> Seq<Lexeme> {
    Seq::new(t.len(), |i: int| t[i]@)
}

/// How many bytes a character takes in UTF-8.
pub open spec fn width(c: char) -> int {
    encode_scalar(c as u32).len() as int
}

/// The byte offset of a character.
pub open spec fn offset(s: Seq<char>, i: int) -> int {
    encode_utf8(s.take(i)).len() as int
}

proof fn encode_push(s: Seq<char>, c: char)
    ensures
        encode_utf8(s.push(c)) == encode_utf8(s) + encode_scalar(c as u32),
    decreases s.len(),
{
    let t = s.push(c);
    if s.len() == 0 {
        assert(t.drop_first() =~= s);
        assert(encode_utf8(s) =~= Seq::<u8>::empty());
        assert(encode_scalar(c as u32) + Seq::<u8>::empty() =~= Seq::<u8>::empty() + encode_scalar(
            c as u32,
        ));
    } else {
        encode_push(s.drop_first(), c);
        assert(t.drop_first() =~= s.drop_first().push(c));
        assert(t[0] == s[0]);
        assert(encode_scalar(s[0] as u32) + (encode_utf8(s.drop_first()) + encode_scalar(c as u32))
            =~= encode_scalar(s[0] as u32) + encode_utf8(s.drop_first()) + encode_scalar(
            c as u32,
        ));
    }
}

proof fn offset_next(s: Seq<char>, i: int)
    requires
        0 <= i < s.len(),
    ensures
        offset(s, i + 1) == offset(s, i) + width(s[i]),
        width(s[i]) == (if (s[i] as u32) < 0x80 {
            1int
        } else if (s[i] as u32) < 0x800 {
            2
        } else if (s[i] as u32) < 0x10000 {
            3
        } else {
            4
        }),
{
    assert(s.take(i + 1) =~= s.take(i).push(s[i]));
    encode_push(s.take(i), s[i]);
    char_is_scalar(s[i]);
}

proof fn offset_grows(s: Seq<char>, i: int, j: int)
    requires
        0 <= i <= j <= s.len(),
    ensures
        offset(s, i) <= offset(s, j),
    decreases j - i,
{
    if i < j {
        offset_grows(s, i, j - 1);
        offset_next(s, j - 1);
    }
}

/// The byte offsets of the characters, and of the end.
fn offsets(sql: &str, s: &[char]) -> (r: Vec<usize>)
    requires
        s@ == sql@,
    ensures
        r@.len() == s@.len() + 1,
        forall|i: int| 0 <= i <= s@.len() ==> #[trigger] r@[i] == offset(s@, i),
{
    let total: usize = sql.as_bytes().len();
    let mut r: Vec<usize> = Vec::new();
    let mut at: usize = 0;
    proof {
        assert(s@.take(0) =~= Seq::<char>::empty());
        assert(s@.take(s@.len() as int) =~= s@);
    }
    r.push(0);
    for i in 0..s.len()
        invariant
            total == offset(s@, s@.len() as int),
            r@.len() == i + 1,
            at == offset(s@, i as int),
            forall|k: int| 0 <= k <= i ==> #[trigger] r@[k] == offset(s@, k),
    {
        proof {
            offset_next(s@, i as int);
            offset_grows(s@, i + 1, s@.len() as int);
        }
        let c: u32 = s[i] as u32;
        let n: usize = if c < 0x80 {
            1
        } else if c < 0x800 {
            2
        } else if c < 0x10000 {
            3
        } else {
            4
        };
        at = at + n;
        r.push(at);
    }
    r
}

pub open spec fn is_blank(c: char) -> bool {
    c == ' ' || c == '\t' || c == '\n' || c == '\r' || c as u32 == 12
}

/// Where the line ends that `i` is in.
pub open spec fn line_end(s: Seq<char>, i: int) -> int
    decreases s.len() - i,
{
    if 0 <= i < s.len() && s[i] != '\n' {
        line_end(s, i + 1)
    } else {
        i
    }
}

/// Where a comment ends that `i` is in: behind `*/`, or at the end.
pub open spec fn comment_end(s: Seq<char>, i: int) -> int
    decreases s.len() - i,
{
    if i < 0 || i >= s.len() {
        s.len() as int
    } else if strings::holds_at(s, "*/"@, i) {
        i + 2
    } else {
        comment_end(s, i + 1)
    }
}

/// The rest of a string literal, put behind `acc`, and where it ends. Two
/// quotes stand for one.
pub open spec fn string_rest(s: Seq<char>, i: int, acc: Seq<char>) -> Option<(Seq<char>, int)>
    decreases s.len() - i,
{
    if i < 0 || i >= s.len() {
        None
    } else if s[i] != '\'' {
        string_rest(s, i + 1, acc.push(s[i]))
    } else if i + 1 < s.len() && s[i + 1] == '\'' {
        string_rest(s, i + 2, acc.push('\''))
    } else {
        Some((acc, i + 1))
    }
}

pub open spec fn digits_end(s: Seq<char>, i: int) -> int
    decreases s.len() - i,
{
    if 0 <= i < s.len() && text::is_digit(s[i]) {
        digits_end(s, i + 1)
    } else {
        i
    }
}

/// Where digits with at most one decimal point end. The first point of `..` is
/// none: `1..10` is a PL/SQL range.
pub open spec fn mantissa_end(s: Seq<char>, i: int, seen_point: bool) -> int
    decreases s.len() - i,
{
    if 0 <= i < s.len() && text::is_digit(s[i]) {
        mantissa_end(s, i + 1, seen_point)
    } else if 0 <= i < s.len() && s[i] == '.' && !seen_point && !(i + 1 < s.len() && s[i + 1]
        == '.') {
        mantissa_end(s, i + 1, true)
    } else {
        i
    }
}

/// Where an exponent at a place ends; the place itself when none is there.
pub open spec fn exponent_end(s: Seq<char>, i: int) -> int {
    if 0 <= i < s.len() && (s[i] == 'e' || s[i] == 'E') {
        let j = if i + 1 < s.len() && (s[i + 1] == '+' || s[i + 1] == '-') {
            i + 2
        } else {
            i + 1
        };
        if j < s.len() && text::is_digit(s[j]) {
            digits_end(s, j)
        } else {
            i
        }
    } else {
        i
    }
}

pub open spec fn number_end(s: Seq<char>, i: int) -> int {
    exponent_end(s, mantissa_end(s, i, false))
}

pub open spec fn in_bind(c: char) -> bool {
    text::is_ascii_alnum(c) || c == '_'
}

pub open spec fn in_name(c: char) -> bool {
    text::is_ascii_alnum(c) || c == '_' || c == '$' || c == '#' || c as u32 >= 0x80
}

pub open spec fn bind_end(s: Seq<char>, i: int) -> int
    decreases s.len() - i,
{
    if 0 <= i < s.len() && in_bind(s[i]) {
        bind_end(s, i + 1)
    } else {
        i
    }
}

pub open spec fn name_end(s: Seq<char>, i: int) -> int
    decreases s.len() - i,
{
    if 0 <= i < s.len() && in_name(s[i]) {
        name_end(s, i + 1)
    } else {
        i
    }
}

/// The symbol at a place, the longest there is, and its length.
pub open spec fn symbol_at(s: Seq<char>, i: int) -> Option<(Seq<char>, int)> {
    if strings::holds_at(s, "||"@, i) {
        Some(("||"@, 2))
    } else if strings::holds_at(s, "<="@, i) {
        Some(("<="@, 2))
    } else if strings::holds_at(s, ">="@, i) {
        Some((">="@, 2))
    } else if strings::holds_at(s, "<>"@, i) {
        Some(("<>"@, 2))
    } else if strings::holds_at(s, "!="@, i) {
        Some(("!="@, 2))
    } else if strings::holds_at(s, "^="@, i) {
        Some(("^="@, 2))
    } else if strings::holds_at(s, "=>"@, i) {
        Some(("=>"@, 2))
    } else if strings::holds_at(s, ".."@, i) {
        Some((".."@, 2))
    } else if strings::holds_at(s, "<<"@, i) {
        Some(("<<"@, 2))
    } else if strings::holds_at(s, ">>"@, i) {
        Some((">>"@, 2))
    } else if strings::holds_at(s, "**"@, i) {
        Some(("**"@, 2))
    } else if s[i] == '(' {
        Some(("("@, 1))
    } else if s[i] == ')' {
        Some((")"@, 1))
    } else if s[i] == ',' {
        Some((","@, 1))
    } else if s[i] == '+' {
        Some(("+"@, 1))
    } else if s[i] == '-' {
        Some(("-"@, 1))
    } else if s[i] == '*' {
        Some(("*"@, 1))
    } else if s[i] == '/' {
        Some(("/"@, 1))
    } else if s[i] == '=' {
        Some(("="@, 1))
    } else if s[i] == '<' {
        Some(("<"@, 1))
    } else if s[i] == '>' {
        Some((">"@, 1))
    } else if s[i] == '.' {
        Some(("."@, 1))
    } else if s[i] == ';' {
        Some((";"@, 1))
    } else if s[i] == '%' {
        Some(("%"@, 1))
    } else {
        None
    }
}

/// What stands at a place.
pub enum Piece {
    /// White space or a comment, up to a place.
    Gap(int),
    /// A token, up to a place.
    Token(Word, int),
    Bad(Failure),
}

pub open spec fn invalid_character() -> Failure {
    error::failure(911, "invalid character"@)
}

pub open spec fn piece_at(s: Seq<char>, i: int) -> Piece {
    let c = s[i];
    if is_blank(c) {
        Piece::Gap(i + 1)
    } else if strings::holds_at(s, "--"@, i) {
        Piece::Gap(line_end(s, i))
    } else if strings::holds_at(s, "/*"@, i) {
        Piece::Gap(comment_end(s, i + 2))
    } else if c == '\'' {
        match string_rest(s, i + 1, Seq::empty()) {
            None => Piece::Bad(error::failure(1756, "quoted string not properly terminated"@)),
            Some((t, end)) => Piece::Token(Word::Str(t), end),
        }
    } else if c == '"' {
        match strings::index_from(s, '"', i + 1) {
            None => Piece::Bad(error::failure(1740, "missing double quote in identifier"@)),
            Some(q) => if q == i + 1 {
                Piece::Bad(error::failure(1741, "illegal zero-length identifier"@))
            } else {
                Piece::Token(Word::Quoted(s.subrange(i + 1, q)), q + 1)
            },
        }
    } else if text::is_digit(c) || (c == '.' && i + 1 < s.len() && text::is_digit(s[i + 1])) {
        let end = number_end(s, i);
        Piece::Token(Word::Number(s.subrange(i, end)), end)
    } else if strings::holds_at(s, ":="@, i) {
        Piece::Token(Word::Symbol(":="@), i + 2)
    } else if c == ':' {
        let end = bind_end(s, i + 1);
        if end == i + 1 {
            Piece::Bad(invalid_character())
        } else {
            Piece::Token(Word::Bind(text::upper(s.subrange(i + 1, end))), end)
        }
    } else if text::is_ascii_letter(c) || c as u32 >= 0x80 {
        let end = name_end(s, i);
        Piece::Token(Word::Ident(text::upper(s.subrange(i, end))), end)
    } else {
        match symbol_at(s, i) {
            Some((sym, n)) => Piece::Token(Word::Symbol(sym), i + n),
            None => Piece::Bad(invalid_character()),
        }
    }
}

/// The tokens of a text from a place on, put behind `acc`.
pub open spec fn lexed_from(s: Seq<char>, i: int, acc: Seq<Lexeme>) -> Result<
    Seq<Lexeme>,
    Failure,
>
    decreases s.len() - i,
{
    if i < 0 || i >= s.len() {
        Ok(acc)
    } else {
        match piece_at(s, i) {
            Piece::Bad(e) => Err(e),
            Piece::Gap(next) => if i < next <= s.len() {
                lexed_from(s, next, acc)
            } else {
                Ok(acc)
            },
            Piece::Token(word, next) => if i < next <= s.len() {
                lexed_from(
                    s,
                    next,
                    acc.push(Lexeme { word, start: offset(s, i), end: offset(s, next) }),
                )
            } else {
                Ok(acc)
            },
        }
    }
}

/// The tokens of a text.
pub open spec fn lexed(s: Seq<char>) -> Result<Seq<Lexeme>, Failure> {
    lexed_from(s, 0, Seq::empty())
}

fn has(s: &[char], i: usize, word: &str) -> (r: bool)
    ensures
        r == strings::holds_at(s@, word@, i as int),
{
    strings::is_at(s, &text::chars_of(word), i)
}

fn blank(c: char) -> (r: bool)
    ensures
        r == is_blank(c),
{
    c == ' ' || c == '\t' || c == '\n' || c == '\r' || c as u32 == 12
}

fn symbol(s: &[char], i: usize) -> (r: Option<(&'static str, usize)>)
    requires
        i < s@.len(),
    ensures
        match r {
            Some((sym, n)) => symbol_at(s@, i as int) == Some((sym@, n as int)) && 0 < n && i + n
                <= s@.len(),
            None => symbol_at(s@, i as int) is None,
        },
{
    proof {
        reveal_strlit("||");
        reveal_strlit("<=");
        reveal_strlit(">=");
        reveal_strlit("<>");
        reveal_strlit("!=");
        reveal_strlit("^=");
        reveal_strlit("=>");
        reveal_strlit("..");
        reveal_strlit("<<");
        reveal_strlit(">>");
        reveal_strlit("**");
    }
    let c: char = s[i];
    if has(s, i, "||") {
        Some(("||", 2))
    } else if has(s, i, "<=") {
        Some(("<=", 2))
    } else if has(s, i, ">=") {
        Some((">=", 2))
    } else if has(s, i, "<>") {
        Some(("<>", 2))
    } else if has(s, i, "!=") {
        Some(("!=", 2))
    } else if has(s, i, "^=") {
        Some(("^=", 2))
    } else if has(s, i, "=>") {
        Some(("=>", 2))
    } else if has(s, i, "..") {
        Some(("..", 2))
    } else if has(s, i, "<<") {
        Some(("<<", 2))
    } else if has(s, i, ">>") {
        Some((">>", 2))
    } else if has(s, i, "**") {
        Some(("**", 2))
    } else if c == '(' {
        Some(("(", 1))
    } else if c == ')' {
        Some((")", 1))
    } else if c == ',' {
        Some((",", 1))
    } else if c == '+' {
        Some(("+", 1))
    } else if c == '-' {
        Some(("-", 1))
    } else if c == '*' {
        Some(("*", 1))
    } else if c == '/' {
        Some(("/", 1))
    } else if c == '=' {
        Some(("=", 1))
    } else if c == '<' {
        Some(("<", 1))
    } else if c == '>' {
        Some((">", 1))
    } else if c == '.' {
        Some((".", 1))
    } else if c == ';' {
        Some((";", 1))
    } else if c == '%' {
        Some(("%", 1))
    } else {
        None
    }
}

fn end_of_line(s: &[char], i: usize) -> (r: usize)
    requires
        i < s@.len(),
    ensures
        r == line_end(s@, i as int),
        i <= r <= s@.len(),
        s@[i as int] != '\n' ==> i < r,
{
    let n: usize = s.len();
    let mut k: usize = i;
    while k < n && s[k] != '\n'
        invariant
            i <= k <= n == s@.len(),
            line_end(s@, i as int) == line_end(s@, k as int),
        decreases n - k,
    {
        k = k + 1;
    }
    k
}

fn end_of_comment(s: &[char], i: usize) -> (r: usize)
    requires
        i <= s@.len(),
    ensures
        r == comment_end(s@, i as int),
        i <= r <= s@.len(),
{
    let n: usize = s.len();
    let mut k: usize = i;
    proof {
        reveal_strlit("*/");
    }
    while k < n
        invariant
            i <= k <= n == s@.len(),
            "*/"@.len() == 2,
            comment_end(s@, i as int) == comment_end(s@, k as int),
        decreases n - k,
    {
        if has(s, k, "*/") {
            return k + 2;
        }
        k = k + 1;
    }
    n
}

fn string_literal(s: &[char], i: usize) -> (r: Option<(String, usize)>)
    requires
        i <= s@.len(),
    ensures
        match r {
            Some((t, end)) => string_rest(s@, i as int, Seq::empty()) == Some((t@, end as int)) && i
                < end <= s@.len(),
            None => string_rest(s@, i as int, Seq::empty()) is None,
        },
{
    let n: usize = s.len();
    let mut k: usize = i;
    let mut t = String::new();
    while k < n
        invariant
            i <= k <= n == s@.len(),
            string_rest(s@, i as int, Seq::empty()) == string_rest(s@, k as int, t@),
        decreases n - k,
    {
        if s[k] != '\'' {
            t.push(s[k]);
            k = k + 1;
        } else if n - k > 1 && s[k + 1] == '\'' {
            t.push('\'');
            k = k + 2;
        } else {
            return Some((t, k + 1));
        }
    }
    None
}

fn find_quote(s: &[char], i: usize) -> (r: Option<usize>)
    requires
        i <= s@.len(),
    ensures
        match r {
            Some(q) => strings::index_from(s@, '"', i as int) == Some(q as int) && i <= q
                < s@.len(),
            None => strings::index_from(s@, '"', i as int) is None,
        },
{
    let n: usize = s.len();
    let mut k: usize = i;
    while k < n
        invariant
            i <= k <= n == s@.len(),
            strings::index_from(s@, '"', i as int) == strings::index_from(s@, '"', k as int),
        decreases n - k,
    {
        if s[k] == '"' {
            return Some(k);
        }
        k = k + 1;
    }
    None
}

fn end_of_digits(s: &[char], i: usize) -> (r: usize)
    requires
        i <= s@.len(),
    ensures
        r == digits_end(s@, i as int),
        i <= r <= s@.len(),
        i < s@.len() && text::is_digit(s@[i as int]) ==> i < r,
{
    let n: usize = s.len();
    let mut k: usize = i;
    while k < n && text::digit_of(s[k])
        invariant
            i <= k <= n == s@.len(),
            digits_end(s@, i as int) == digits_end(s@, k as int),
        decreases n - k,
    {
        k = k + 1;
    }
    k
}

fn end_of_number(s: &[char], i: usize) -> (r: usize)
    requires
        i < s@.len(),
        text::is_digit(s@[i as int]) || (s@[i as int] == '.' && i + 1 < s@.len() && text::is_digit(
            s@[i + 1],
        )),
    ensures
        r == number_end(s@, i as int),
        i < r <= s@.len(),
{
    let n: usize = s.len();
    let mut k: usize = i;
    let mut seen_point = false;
    while k < n && (text::digit_of(s[k]) || (s[k] == '.' && !seen_point && !(n - k > 1 && s[k + 1]
        == '.')))
        invariant
            i <= k <= n == s@.len(),
            mantissa_end(s@, i as int, false) == mantissa_end(s@, k as int, seen_point),
            k == i ==> !seen_point,
        decreases n - k,
    {
        if s[k] == '.' {
            seen_point = true;
        }
        k = k + 1;
    }
    if k < n && (s[k] == 'e' || s[k] == 'E') {
        let j: usize = if n - k > 1 && (s[k + 1] == '+' || s[k + 1] == '-') {
            k + 2
        } else {
            k + 1
        };
        if j < n && text::digit_of(s[j]) {
            return end_of_digits(s, j);
        }
    }
    k
}

fn end_of_bind(s: &[char], i: usize) -> (r: usize)
    requires
        i <= s@.len(),
    ensures
        r == bind_end(s@, i as int),
        i <= r <= s@.len(),
{
    let n: usize = s.len();
    let mut k: usize = i;
    while k < n && (text::ascii_alnum(s[k]) || s[k] == '_')
        invariant
            i <= k <= n == s@.len(),
            bind_end(s@, i as int) == bind_end(s@, k as int),
        decreases n - k,
    {
        k = k + 1;
    }
    k
}

fn end_of_name(s: &[char], i: usize) -> (r: usize)
    requires
        i < s@.len(),
        in_name(s@[i as int]),
    ensures
        r == name_end(s@, i as int),
        i < r <= s@.len(),
{
    let n: usize = s.len();
    let mut k: usize = i;
    while k < n && (text::ascii_alnum(s[k]) || s[k] == '_' || s[k] == '$' || s[k] == '#'
        || s[k] as u32 >= 0x80)
        invariant
            i <= k <= n == s@.len(),
            name_end(s@, i as int) == name_end(s@, k as int),
        decreases n - k,
    {
        k = k + 1;
    }
    k
}

/// The token at a place, or `None` for a gap, and where it ends.
fn piece(s: &[char], i: usize) -> (r: Result<(Option<Tok>, usize), OraError>)
    requires
        i < s@.len(),
    ensures
        match r {
            Ok((Some(t), next)) => piece_at(s@, i as int) == Piece::Token(t@, next as int) && i
                < next <= s@.len(),
            Ok((None, next)) => piece_at(s@, i as int) == Piece::Gap(next as int) && i < next
                <= s@.len(),
            Err(e) => piece_at(s@, i as int) == Piece::Bad(e@),
        },
{
    let c: char = s[i];
    let n: usize = s.len();
    proof {
        reveal_strlit("--");
        reveal_strlit("/*");
        reveal_strlit(":=");
    }
    if blank(c) {
        return Ok((None, i + 1));
    }
    if has(s, i, "--") {
        assert(s@.subrange(i as int, i + 2)[0] == c);
        return Ok((None, end_of_line(s, i)));
    }
    if has(s, i, "/*") {
        return Ok((None, end_of_comment(s, i + 2)));
    }
    if c == '\'' {
        return match string_literal(s, i + 1) {
            None => Err(OraError::new(1756, "quoted string not properly terminated")),
            Some((t, end)) => Ok((Some(Tok::Str(t)), end)),
        };
    }
    if c == '"' {
        return match find_quote(s, i + 1) {
            None => Err(OraError::new(1740, "missing double quote in identifier")),
            Some(q) => if q == i + 1 {
                Err(OraError::new(1741, "illegal zero-length identifier"))
            } else {
                let name = text::string_of(&text::slice(s, i + 1, q));
                Ok((Some(Tok::QuotedIdent(name)), q + 1))
            },
        };
    }
    if text::digit_of(c) || (c == '.' && n - i > 1 && text::digit_of(s[i + 1])) {
        let end: usize = end_of_number(s, i);
        let t = text::string_of(&text::slice(s, i, end));
        return Ok((Some(Tok::Number(t)), end));
    }
    if has(s, i, ":=") {
        return Ok((Some(Tok::Symbol(":=")), i + 2));
    }
    if c == ':' {
        let end: usize = end_of_bind(s, i + 1);
        if end == i + 1 {
            return Err(OraError::new(911, "invalid character"));
        }
        let t = text::string_of(&text::slice(s, i + 1, end));
        return Ok((Some(Tok::Bind(t.to_uppercase())), end));
    }
    if text::ascii_letter(c) || c as u32 >= 0x80 {
        let end: usize = end_of_name(s, i);
        let t = text::string_of(&text::slice(s, i, end));
        return Ok((Some(Tok::Ident(t.to_uppercase())), end));
    }
    match symbol(s, i) {
        Some((sym, len)) => Ok((Some(Tok::Symbol(sym)), i + len)),
        None => Err(OraError::new(911, "invalid character")),
    }
}

pub fn tokenize(sql: &str) -> (r: Result<Vec<Token>, OraError>)
    ensures
        match r {
            Ok(t) => lexed(sql@) == Ok::<Seq<Lexeme>, Failure>(lexemes(t@)),
            Err(e) => error::failed(lexed(sql@), e),
        },
{
    let s = text::chars_of(sql);
    let offs = offsets(sql, &s);
    let n: usize = s.len();
    let mut tokens: Vec<Token> = Vec::new();
    let mut i: usize = 0;
    assert(lexemes(tokens@) =~= Seq::<Lexeme>::empty());
    while i < n
        invariant
            i <= n == s@.len(),
            s@ == sql@,
            offs@.len() == n + 1,
            forall|k: int| 0 <= k <= n ==> #[trigger] offs@[k] == offset(s@, k),
            lexed(sql@) == lexed_from(s@, i as int, lexemes(tokens@)),
        decreases n - i,
    {
        let ghost had = tokens@;
        match piece(&s, i) {
            Ok((Some(tok), next)) => {
                tokens.push(Token { tok, start: offs[i], end: offs[next] });
                assert(lexemes(tokens@) =~= lexemes(had).push(tokens@.last()@));
                i = next;
            },
            Ok((None, next)) => {
                i = next;
            },
            Err(e) => {
                return Err(e);
            },
        }
    }
    Ok(tokens)
}

} // verus!
