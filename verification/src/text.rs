//! Text as sequences of characters: the few string operations that the rest of
//! the crate is written with.

use vstd::prelude::*;
use vstd::string::*;
use vstd::utf8::*;

verus! {

/// `String::push` appends one character.
pub assume_specification[ String::push ](s: &mut String, c: char)
    ensures
        final(s)@ == old(s)@.push(c),
;

/// What `str::to_uppercase` makes of a text.
pub uninterp spec fn unicode_upper(s: Seq<char>) -> Seq<char>;

/// What `str::to_lowercase` makes of a text.
pub uninterp spec fn unicode_lower(s: Seq<char>) -> Seq<char>;

/// A text in upper case: of an ASCII text the small letters alone change.
#[verifier::opaque]
pub open spec fn upper(s: Seq<char>) -> Seq<char> {
    if is_ascii_chars(s) {
        s.map_values(|c: char| upper_ascii(c))
    } else {
        unicode_upper(s)
    }
}

/// A text in lower case: of an ASCII text the capital letters alone change.
#[verifier::opaque]
pub open spec fn lower(s: Seq<char>) -> Seq<char> {
    if is_ascii_chars(s) {
        s.map_values(|c: char| lower_ascii(c))
    } else {
        unicode_lower(s)
    }
}

/// `String::from_utf8`: the text when the bytes are UTF-8, an error otherwise.
#[verifier::external_body]
pub(crate) fn utf8_text(b: Vec<u8>) -> (r: Option<String>)
    ensures
        r is Some <==> valid_utf8(b@),
        r matches Some(s) ==> s@ == decode_utf8(b@),
{
    String::from_utf8(b).ok()
}

/// An ASCII letter in upper case; any other character as it is.
pub open spec fn upper_ascii(c: char) -> char {
    if 'a' <= c <= 'z' {
        (c as u32 - 32) as char
    } else {
        c
    }
}

/// An ASCII letter in lower case; any other character as it is.
pub open spec fn lower_ascii(c: char) -> char {
    if 'A' <= c <= 'Z' {
        (c as u32 + 32) as char
    } else {
        c
    }
}

/// `str::to_uppercase`. Of an ASCII text it changes the small letters alone.
pub assume_specification[ str::to_uppercase ](s: &str) -> (r: String)
    ensures
        r@ == upper(s@),
        is_ascii_chars(s@) ==> r@ == s@.map_values(|c: char| upper_ascii(c)),
        !is_ascii_chars(s@) ==> r@ == unicode_upper(s@),
;

/// `str::to_lowercase`. Of an ASCII text it changes the capital letters alone.
pub assume_specification[ str::to_lowercase ](s: &str) -> (r: String)
    ensures
        r@ == lower(s@),
        is_ascii_chars(s@) ==> r@ == s@.map_values(|c: char| lower_ascii(c)),
        !is_ascii_chars(s@) ==> r@ == unicode_lower(s@),
;

/// What `char::is_whitespace` says of a character.
pub uninterp spec fn unicode_white(c: char) -> bool;

/// What `char::is_alphanumeric` says of a character.
pub uninterp spec fn unicode_alphanumeric(c: char) -> bool;

/// Whether a character is white space.
pub open spec fn white(c: char) -> bool {
    if (c as u32) < 128 {
        9 <= c as u32 <= 13 || c as u32 == 32
    } else {
        unicode_white(c)
    }
}

/// Whether a character is a letter or a digit.
pub open spec fn alphanumeric(c: char) -> bool {
    if (c as u32) < 128 {
        is_ascii_alnum(c)
    } else {
        unicode_alphanumeric(c)
    }
}

pub open spec fn is_digit(c: char) -> bool {
    '0' <= c <= '9'
}

pub open spec fn is_ascii_letter(c: char) -> bool {
    ('a' <= c <= 'z') || ('A' <= c <= 'Z')
}

pub open spec fn is_ascii_alnum(c: char) -> bool {
    is_digit(c) || is_ascii_letter(c)
}

/// `char::is_whitespace`. Of the ASCII characters, tab, line feed, vertical
/// tab, form feed, carriage return and space are white space.
pub assume_specification[ char::is_whitespace ](c: char) -> (r: bool)
    ensures
        r == white(c),
        (c as u32) >= 128 ==> r == unicode_white(c),
;

/// `char::is_alphanumeric`. Of the ASCII characters, digits and letters are.
pub assume_specification[ char::is_alphanumeric ](c: char) -> (r: bool)
    ensures
        r == alphanumeric(c),
        (c as u32) >= 128 ==> r == unicode_alphanumeric(c),
;

/// The characters of a string.
pub fn chars_of(s: &str) -> (v: Vec<char>)
    ensures
        v@ == s@,
{
    let mut v: Vec<char> = Vec::new();
    for c in it: s.chars()
        invariant
            it.seq() == s@,
            v@ == s@.take(it.index()),
    {
        v.push(c);
        assert(s@.take(it.index() + 1) =~= s@.take(it.index()).push(c));
    }
    assert(s@.take(s@.len() as int) =~= s@);
    v
}

/// The string made of some characters.
pub fn string_of(v: &[char]) -> (s: String)
    ensures
        s@ == v@,
{
    let mut s = String::new();
    for i in 0..v.len()
        invariant
            s@ == v@.take(i as int),
    {
        s.push(v[i]);
        assert(v@.take(i + 1) =~= v@.take(i as int).push(v@[i as int]));
    }
    assert(v@.take(v@.len() as int) =~= v@);
    s
}

/// Whether two texts are the same.
pub fn same(a: &str, b: &str) -> (r: bool)
    ensures
        r == (a@ == b@),
{
    let x = chars_of(a);
    let y = chars_of(b);
    same_chars(&x, &y)
}

/// Whether two runs of characters are the same.
pub fn same_chars(x: &[char], y: &[char]) -> (r: bool)
    ensures
        r == (x@ == y@),
{
    if x.len() != y.len() {
        return false;
    }
    for i in 0..x.len()
        invariant
            x@.len() == y@.len(),
            forall|j: int| 0 <= j < i ==> x@[j] == y@[j],
    {
        if x[i] != y[i] {
            return false;
        }
    }
    assert(x@ =~= y@);
    true
}

/// The decimal digit for a value below ten.
pub open spec fn digit_char(d: int) -> char {
    (d + 48) as char
}

/// A natural number in decimal, without leading zeros.
pub open spec fn decimal(n: nat) -> Seq<char>
    decreases n,
{
    if n < 10 {
        seq![digit_char(n as int)]
    } else {
        decimal(n / 10).push(digit_char((n % 10) as int))
    }
}

/// `s` with `0` in front as far as it takes to be `width` characters long.
pub open spec fn zero_filled(s: Seq<char>, width: nat) -> Seq<char> {
    if s.len() < width {
        Seq::new((width - s.len()) as nat, |i: int| '0') + s
    } else {
        s
    }
}

/// An integer in decimal, with `-` in front when negative.
pub open spec fn decimal_int(n: int) -> Seq<char> {
    if n < 0 {
        seq!['-'] + decimal((-n) as nat)
    } else {
        decimal(n as nat)
    }
}

/// The digit character of a digit.
pub fn digit(d: u8) -> (c: char)
    requires
        d < 10,
    ensures
        c == digit_char(d as int),
{
    (d + 48) as char
}

/// Appends a number in decimal.
pub fn push_decimal(s: &mut String, n: u64)
    ensures
        final(s)@ == old(s)@ + decimal(n as nat),
    decreases n,
{
    if n >= 10 {
        push_decimal(s, n / 10);
    }
    s.push(digit((n % 10) as u8));
}

/// A number in decimal.
pub fn decimal_text(n: u64) -> (s: String)
    ensures
        s@ == decimal(n as nat),
{
    let mut s = String::new();
    push_decimal(&mut s, n);
    s
}

/// An integer in decimal.
pub fn integer_text(n: i64) -> (s: String)
    ensures
        s@ == decimal_int(n as int),
{
    let mut s = String::new();
    if n < 0 {
        s.push('-');
        push_decimal(&mut s, (-(n + 1)) as u64 + 1);
        assert(s@ =~= seq!['-'] + decimal((-n) as nat));
    } else {
        push_decimal(&mut s, n as u64);
    }
    s
}

/// A number in decimal, filled with zeros to a width.
pub fn decimal_filled(n: u64, width: usize) -> (s: String)
    ensures
        s@ == zero_filled(decimal(n as nat), width as nat),
{
    let body = chars_of(&decimal_text(n));
    let mut s = String::new();
    if body.len() < width {
        let gap: usize = width - body.len();
        for i in 0..gap
            invariant
                s@ == Seq::new(i as nat, |k: int| '0'),
        {
            s.push('0');
        }
    }
    s.append(&string_of(&body));
    s
}

/// `a` followed by `b`.
pub fn join(a: &str, b: &str) -> (s: String)
    ensures
        s@ == a@ + b@,
{
    let mut s = a.to_owned();
    s.append(b);
    s
}

/// A name in double quotes.
pub fn quoted(name: &str) -> (s: String)
    ensures
        s@ == seq!['"'] + name@ + seq!['"'],
{
    let mut s = String::new();
    s.push('"');
    s.append(name);
    s.push('"');
    assert(s@ =~= seq!['"'] + name@ + seq!['"']);
    s
}

/// An ASCII letter in upper case; any other character as it is.
pub fn to_upper_ascii(c: char) -> (r: char)
    ensures
        r == upper_ascii(c),
{
    if 'a' <= c && c <= 'z' {
        ((c as u8) - 32) as char
    } else {
        c
    }
}

/// An ASCII letter in lower case; any other character as it is.
pub fn to_lower_ascii(c: char) -> (r: char)
    ensures
        r == lower_ascii(c),
{
    if 'A' <= c && c <= 'Z' {
        ((c as u8) + 32) as char
    } else {
        c
    }
}

pub fn digit_of(c: char) -> (r: bool)
    ensures
        r == is_digit(c),
{
    '0' <= c && c <= '9'
}

pub fn ascii_letter(c: char) -> (r: bool)
    ensures
        r == is_ascii_letter(c),
{
    ('a' <= c && c <= 'z') || ('A' <= c && c <= 'Z')
}

pub fn ascii_alnum(c: char) -> (r: bool)
    ensures
        r == is_ascii_alnum(c),
{
    digit_of(c) || ascii_letter(c)
}

/// Whether a word in capitals stands in a text at a place, in whatever case.
pub open spec fn word_at(s: Seq<char>, i: int, word: Seq<char>) -> bool {
    &&& 0 <= i
    &&& i + word.len() <= s.len()
    &&& forall|k: int| 0 <= k < word.len() ==> upper_ascii(#[trigger] s[i + k]) == word[k]
}

pub fn has_word(s: &[char], i: usize, word: &str) -> (r: bool)
    ensures
        r == word_at(s@, i as int, word@),
{
    let w = chars_of(word);
    let total: usize = s.len();
    if i > total || w.len() > total - i {
        return false;
    }
    for k in 0..w.len()
        invariant
            w@ == word@,
            i + w@.len() <= s@.len() == total,
            forall|j: int| 0 <= j < k ==> upper_ascii(#[trigger] s@[i + j]) == w@[j],
    {
        if to_upper_ascii(s[i + k]) != w[k] {
            assert(upper_ascii(s@[i + k]) != word@[k as int]);
            return false;
        }
    }
    true
}

/// Where the first character that is no white space stands, from `i` on.
pub open spec fn skip_white(s: Seq<char>, i: int) -> int
    decreases s.len() - i,
{
    if 0 <= i < s.len() && white(s[i]) {
        skip_white(s, i + 1)
    } else {
        i
    }
}

/// A text without white space at its end.
pub open spec fn trim_end(s: Seq<char>) -> Seq<char>
    decreases s.len(),
{
    if s.len() > 0 && white(s.last()) {
        trim_end(s.drop_last())
    } else {
        s
    }
}

/// A text without white space around it.
pub open spec fn trimmed(s: Seq<char>) -> Seq<char> {
    trim_end(s.skip(skip_white(s, 0)))
}

/// The characters between two places.
pub fn slice(s: &[char], from: usize, to: usize) -> (r: Vec<char>)
    requires
        from <= to <= s@.len(),
    ensures
        r@ == s@.subrange(from as int, to as int),
{
    let r = vstd::slice::slice_to_vec(vstd::slice::slice_subrange(s, from, to));
    r
}

/// A text without white space around it.
pub fn trim(s: &str) -> (r: Vec<char>)
    ensures
        r@ == trimmed(s@),
{
    let c = chars_of(s);
    let mut from: usize = 0;
    while from < c.len() && c[from].is_whitespace()
        invariant
            from <= c@.len(),
            skip_white(c@, 0) == skip_white(c@, from as int),
        decreases c@.len() - from,
    {
        from = from + 1;
    }
    let mut to: usize = c.len();
    let ghost body = c@.skip(from as int);
    assert(c@.subrange(from as int, to as int) =~= body);
    while to > from && c[to - 1].is_whitespace()
        invariant
            from <= to <= c@.len(),
            trim_end(body) == trim_end(c@.subrange(from as int, to as int)),
        decreases to,
    {
        assert(c@.subrange(from as int, to as int).drop_last() =~= c@.subrange(from as int, to - 1));
        to = to - 1;
    }
    slice(&c, from, to)
}

} // verus!
