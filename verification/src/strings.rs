//! The string functions of SQL, on sequences of characters.

use vstd::prelude::*;
use vstd::string::*;

use crate::text;

verus! {

pub open spec fn min(a: int, b: int) -> int {
    if a < b {
        a
    } else {
        b
    }
}

/// INITCAP: the first letter of each word in capitals, the others small. A
/// word is a run of letters and digits; `start` says whether the next one
/// would start one.
pub open spec fn capitalized(s: Seq<char>, start: bool) -> Seq<char>
    decreases s.len(),
{
    if s.len() == 0 {
        Seq::empty()
    } else if text::alphanumeric(s[0]) {
        (if start {
            text::upper(seq![s[0]])
        } else {
            text::lower(seq![s[0]])
        }) + capitalized(s.skip(1), false)
    } else {
        seq![s[0]] + capitalized(s.skip(1), true)
    }
}

pub fn initcap(s: &[char]) -> (r: String)
    ensures
        r@ == capitalized(s@, true),
{
    let mut out = String::new();
    let mut start = true;
    assert(s@.skip(0) =~= s@);
    for i in 0..s.len()
        invariant
            capitalized(s@, true) == out@ + capitalized(s@.skip(i as int), start),
    {
        let c: char = s[i];
        let ghost left = s@.skip(i as int);
        let ghost had = out@;
        assert(left[0] == c);
        assert(left.skip(1) =~= s@.skip(i + 1));
        let mut one = String::new();
        one.push(c);
        assert(one@ =~= seq![c]);
        if c.is_alphanumeric() {
            if start {
                out.append(&one.to_uppercase());
                assert(had + (text::upper(seq![c]) + capitalized(left.skip(1), false)) =~= out@
                    + capitalized(left.skip(1), false));
            } else {
                out.append(&one.to_lowercase());
                assert(had + (text::lower(seq![c]) + capitalized(left.skip(1), false)) =~= out@
                    + capitalized(left.skip(1), false));
            }
            start = false;
        } else {
            out.push(c);
            assert(had + (seq![c] + capitalized(left.skip(1), true)) =~= out@ + capitalized(
                left.skip(1),
                true,
            ));
            start = true;
        }
    }
    assert(s@.skip(s@.len() as int).len() == 0);
    assert(out@ + Seq::<char>::empty() =~= out@);
    out
}

/// The place, counted from 0, that SUBSTR's position names: from the front
/// when positive, from the back when negative.
pub open spec fn start_of(pos: int, len: int) -> int {
    if pos > 0 {
        pos - 1
    } else if pos == 0 {
        0
    } else {
        len + pos
    }
}

/// SUBSTR: at most `count` characters from a place inside the text on.
pub open spec fn part(s: Seq<char>, start: int, count: int) -> Seq<char> {
    s.subrange(start, min(start + count, s.len() as int))
}

pub fn substr(s: &[char], start: usize, count: i64) -> (r: String)
    requires
        start < s@.len(),
        count >= 1,
    ensures
        r@ == part(s@, start as int, count as int),
{
    let left: usize = s.len() - start;
    let end: usize = if count as u64 >= left as u64 {
        s.len()
    } else {
        start + count as usize
    };
    text::string_of(&text::slice(s, start, end))
}

/// Whether a text holds another one at a place.
pub open spec fn holds_at(s: Seq<char>, sub: Seq<char>, i: int) -> bool {
    0 <= i && i + sub.len() <= s.len() && s.subrange(i, i + sub.len()) == sub
}

pub fn is_at(s: &[char], sub: &[char], i: usize) -> (r: bool)
    ensures
        r == holds_at(s@, sub@, i as int),
{
    if i > s.len() || sub.len() > s.len() - i {
        return false;
    }
    let here = text::slice(s, i, i + sub.len());
    text::same_chars(&here, sub)
}

/// The place, counted from 1, of the `occ`-th occurrence from `i` on; 0 when
/// there are not that many.
pub open spec fn find_forward(s: Seq<char>, sub: Seq<char>, i: int, occ: int) -> int
    decreases s.len() - i + 1,
{
    if i < 0 || i + sub.len() > s.len() {
        0
    } else if holds_at(s, sub, i) {
        if occ <= 1 {
            i + 1
        } else {
            find_forward(s, sub, i + 1, occ - 1)
        }
    } else {
        find_forward(s, sub, i + 1, occ)
    }
}

/// The same, going back from `i`.
pub open spec fn find_backward(s: Seq<char>, sub: Seq<char>, i: int, occ: int) -> int
    decreases i + 1,
{
    if i < 0 {
        0
    } else if holds_at(s, sub, i) {
        if occ <= 1 {
            i + 1
        } else {
            find_backward(s, sub, i - 1, occ - 1)
        }
    } else {
        find_backward(s, sub, i - 1, occ)
    }
}

/// INSTR: the place of an occurrence. A negative position counts from the
/// back, and the search goes back from there.
pub open spec fn position(s: Seq<char>, sub: Seq<char>, pos: int, occ: int) -> int {
    if pos == 0 {
        0
    } else if pos > 0 {
        find_forward(s, sub, pos - 1, occ)
    } else {
        find_backward(s, sub, s.len() + pos - sub.len() + 1, occ)
    }
}

pub fn instr(s: &[char], sub: &[char], pos: i64, occ: i64) -> (r: i64)
    requires
        occ >= 1,
    ensures
        r == position(s@, sub@, pos as int, occ as int) as i64,
{
    if pos == 0 {
        return 0;
    }
    let n: i128 = s.len() as i128;
    let m: i128 = sub.len() as i128;
    let mut left: i64 = occ;
    if pos > 0 {
        let mut i: i128 = pos as i128 - 1;
        while i + m <= n
            invariant
                n == s@.len() <= usize::MAX,
                m == sub@.len() <= usize::MAX,
                left >= 1,
                0 <= i <= 0x7fff_ffff_ffff_ffff_ffff,
                find_forward(s@, sub@, pos - 1, occ as int) == find_forward(
                    s@,
                    sub@,
                    i as int,
                    left as int,
                ),
                pos > 0,
            decreases n - i + 1,
        {
            if is_at(s, sub, i as usize) {
                if left == 1 {
                    return (i + 1) as i64;
                }
                left = left - 1;
            }
            i = i + 1;
        }
        0
    } else {
        let ghost from: int = n + pos - m + 1;
        let mut i: i128 = n + pos as i128 - m + 1;
        while i >= 0
            invariant
                n == s@.len() <= usize::MAX,
                m == sub@.len() <= usize::MAX,
                left >= 1,
                i <= n - m,
                from == n + pos - m + 1,
                find_backward(s@, sub@, from, occ as int) == find_backward(
                    s@,
                    sub@,
                    i as int,
                    left as int,
                ),
                pos < 0,
            decreases i + 1,
        {
            if is_at(s, sub, i as usize) {
                if left == 1 {
                    return (i + 1) as i64;
                }
                left = left - 1;
            }
            i = i - 1;
        }
        0
    }
}

/// REPLACE: the text with each occurrence of `from`, from left to right,
/// replaced.
pub open spec fn replaced(s: Seq<char>, from: Seq<char>, to: Seq<char>, i: int) -> Seq<char>
    decreases s.len() - i,
{
    if i < 0 || i >= s.len() || from.len() == 0 {
        s.skip(i)
    } else if holds_at(s, from, i) {
        to + replaced(s, from, to, i + from.len())
    } else {
        seq![s[i]] + replaced(s, from, to, i + 1)
    }
}

pub fn replace(s: &[char], from: &[char], to: &[char]) -> (r: String)
    ensures
        r@ == replaced(s@, from@, to@, 0),
{
    let n: usize = s.len();
    let mut out: Vec<char> = Vec::new();
    if from.len() == 0 {
        assert(s@.skip(0) =~= s@);
        return text::string_of(s);
    }
    let mut i: usize = 0;
    while i < n
        invariant
            i <= n == s@.len(),
            from@.len() > 0,
            replaced(s@, from@, to@, 0) == out@ + replaced(s@, from@, to@, i as int),
        decreases n - i,
    {
        let ghost had = out@;
        if is_at(s, from, i) {
            out.extend_from_slice(to);
            let ghost rest = replaced(s@, from@, to@, i + from@.len());
            assert(out@ =~= had + to@);
            assert(had + (to@ + rest) =~= out@ + rest);
            i = i + from.len();
        } else {
            out.push(s[i]);
            let ghost rest = replaced(s@, from@, to@, i + 1);
            assert(had + (seq![s@[i as int]] + rest) =~= out@ + rest);
            i = i + 1;
        }
    }
    assert(s@.skip(n as int) =~= Seq::<char>::empty());
    assert(out@ + Seq::<char>::empty() =~= out@);
    text::string_of(&out)
}

/// Where a character first stands in a text, from `i` on.
pub open spec fn index_from(s: Seq<char>, c: char, i: int) -> Option<int>
    decreases s.len() - i,
{
    if i < 0 || i >= s.len() {
        None
    } else if s[i] == c {
        Some(i)
    } else {
        index_from(s, c, i + 1)
    }
}

pub fn index_of(s: &[char], c: char) -> (r: Option<usize>)
    ensures
        match r {
            Some(i) => index_from(s@, c, 0) == Some(i as int) && i < s@.len(),
            None => index_from(s@, c, 0) is None,
        },
{
    let n: usize = s.len();
    let mut i: usize = 0;
    while i < n
        invariant
            i <= n == s@.len(),
            index_from(s@, c, 0) == index_from(s@, c, i as int),
        decreases n - i,
    {
        if s[i] == c {
            return Some(i);
        }
        i = i + 1;
    }
    None
}

/// What TRANSLATE makes of a character.
pub open spec fn mapped(c: char, from: Seq<char>, to: Seq<char>) -> Seq<char> {
    match index_from(from, c, 0) {
        Some(i) => if i < to.len() {
            seq![to[i]]
        } else {
            Seq::empty()
        },
        None => seq![c],
    }
}

/// TRANSLATE: the characters of `from` replaced by those that stand at the
/// same places of `to`, or dropped where there are none.
pub open spec fn translated(s: Seq<char>, from: Seq<char>, to: Seq<char>) -> Seq<char>
    decreases s.len(),
{
    if s.len() == 0 {
        Seq::empty()
    } else {
        translated(s.drop_last(), from, to) + mapped(s.last(), from, to)
    }
}

pub fn translate(s: &[char], from: &[char], to: &[char]) -> (r: String)
    ensures
        r@ == translated(s@, from@, to@),
{
    let mut out: Vec<char> = Vec::new();
    for i in 0..s.len()
        invariant
            out@ == translated(s@.take(i as int), from@, to@),
    {
        let c: char = s[i];
        assert(s@.take(i + 1).drop_last() =~= s@.take(i as int));
        let ghost had = out@;
        match index_of(from, c) {
            Some(k) => {
                if k < to.len() {
                    out.push(to[k]);
                }
            },
            None => {
                out.push(c);
            },
        }
        assert(out@ =~= had + mapped(c, from@, to@));
    }
    assert(s@.take(s@.len() as int) =~= s@);
    text::string_of(&out)
}

/// A text without the characters of a set at its front.
pub open spec fn trim_front(s: Seq<char>, set: Seq<char>) -> Seq<char>
    decreases s.len(),
{
    if s.len() > 0 && set.contains(s[0]) {
        trim_front(s.skip(1), set)
    } else {
        s
    }
}

/// A text without the characters of a set at its end.
pub open spec fn trim_back(s: Seq<char>, set: Seq<char>) -> Seq<char>
    decreases s.len(),
{
    if s.len() > 0 && set.contains(s.last()) {
        trim_back(s.drop_last(), set)
    } else {
        s
    }
}

fn in_set(set: &[char], c: char) -> (r: bool)
    ensures
        r == set@.contains(c),
{
    for i in 0..set.len()
        invariant
            forall|j: int| 0 <= j < i ==> set@[j] != c,
    {
        if set[i] == c {
            return true;
        }
    }
    false
}

pub fn ltrim(s: &[char], set: &[char]) -> (r: Vec<char>)
    ensures
        r@ == trim_front(s@, set@),
{
    let n: usize = s.len();
    let mut i: usize = 0;
    assert(s@.skip(0) =~= s@);
    while i < n && in_set(set, s[i])
        invariant
            i <= n == s@.len(),
            trim_front(s@, set@) == trim_front(s@.skip(i as int), set@),
        decreases n - i,
    {
        assert(s@.skip(i as int).skip(1) =~= s@.skip(i + 1));
        i = i + 1;
    }
    let r = text::slice(s, i, n);
    assert(r@ =~= s@.skip(i as int));
    r
}

pub fn rtrim(s: &[char], set: &[char]) -> (r: Vec<char>)
    ensures
        r@ == trim_back(s@, set@),
{
    let mut n: usize = s.len();
    assert(s@.take(n as int) =~= s@);
    while n > 0 && in_set(set, s[n - 1])
        invariant
            n <= s@.len(),
            trim_back(s@, set@) == trim_back(s@.take(n as int), set@),
        decreases n,
    {
        assert(s@.take(n as int).drop_last() =~= s@.take(n - 1));
        n = n - 1;
    }
    let r = text::slice(s, 0, n);
    assert(r@ =~= s@.take(n as int));
    r
}

/// `n` characters of a text repeated over and over; nothing of the empty one.
pub open spec fn filling(pad: Seq<char>, n: int) -> Seq<char> {
    if pad.len() == 0 {
        Seq::empty()
    } else {
        Seq::new(n as nat, |i: int| pad[i % pad.len() as int])
    }
}

/// LPAD and RPAD: the text cut or filled to `n` characters.
pub open spec fn fitted(s: Seq<char>, n: int, pad: Seq<char>, left: bool) -> Seq<char> {
    if s.len() >= n {
        s.take(n)
    } else if left {
        filling(pad, n - s.len()) + s
    } else {
        s + filling(pad, n - s.len())
    }
}

pub fn fit(s: &[char], n: usize, pad: &[char], left: bool) -> (r: String)
    ensures
        r@ == fitted(s@, n as int, pad@, left),
{
    if s.len() >= n {
        let r = text::slice(s, 0, n);
        assert(r@ =~= s@.take(n as int));
        return text::string_of(&r);
    }
    let gap: usize = n - s.len();
    let mut fill: Vec<char> = Vec::new();
    if pad.len() > 0 {
        for i in 0..gap
            invariant
                pad@.len() > 0,
                fill@ == filling(pad@, i as int),
        {
            fill.push(pad[i % pad.len()]);
            assert(fill@ =~= filling(pad@, i + 1));
        }
    }
    let mut out: Vec<char> = Vec::new();
    if left {
        out.extend_from_slice(&fill);
        out.extend_from_slice(s);
        assert(out@ =~= fill@ + s@);
    } else {
        out.extend_from_slice(s);
        out.extend_from_slice(&fill);
        assert(out@ =~= s@ + fill@);
    }
    text::string_of(&out)
}

pub fn reverse(s: &[char]) -> (r: String)
    ensures
        r@ == s@.reverse(),
{
    let mut out = String::new();
    let n: usize = s.len();
    for i in 0..n
        invariant
            n == s@.len(),
            out@ == s@.reverse().take(i as int),
    {
        out.push(s[n - 1 - i]);
        assert(s@.reverse().take(i + 1) =~= s@.reverse().take(i as int).push(s@.reverse()[i as int]));
    }
    assert(s@.reverse().take(n as int) =~= s@.reverse());
    out
}

/// A text found by INSTR stands where INSTR says.
pub proof fn a_found_text_is_there(s: Seq<char>, sub: Seq<char>, i: int, occ: int)
    requires
        occ >= 1,
    ensures
        find_forward(s, sub, i, occ) != 0 ==> holds_at(s, sub, find_forward(s, sub, i, occ) - 1)
            && find_forward(s, sub, i, occ) > i,
    decreases s.len() - i + 1,
{
    if i >= 0 && i + sub.len() <= s.len() {
        if holds_at(s, sub, i) {
            if occ > 1 {
                a_found_text_is_there(s, sub, i + 1, occ - 1);
            }
        } else {
            a_found_text_is_there(s, sub, i + 1, occ);
        }
    }
}

/// LPAD and RPAD give exactly the length that they are asked for, unless there
/// is nothing to fill with.
pub proof fn padding_gives_the_length(s: Seq<char>, n: int, pad: Seq<char>, left: bool)
    requires
        n >= 0,
        pad.len() > 0,
    ensures
        fitted(s, n, pad, left).len() == n,
{
}

} // verus!
