//! Number format models for TO_CHAR.

use vstd::prelude::*;
use vstd::string::*;
use vstd::utf8::*;

use crate::error;
use crate::error::{Failure, OraError};
use crate::number;
use crate::number::{Dec, Number, Rounding};
use crate::strings;
use crate::text;

verus! {

/// A number format model taken apart.
pub struct Shape {
    /// No padding.
    pub fm: bool,
    pub dollar: bool,
    pub leading_sign: bool,
    pub trailing_mi: bool,
    pub trailing_s: bool,
    /// What stands before the decimal point.
    pub int_fmt: Seq<char>,
    /// What stands behind the decimal point, if there is one.
    pub frac_fmt: Option<Seq<char>>,
}

struct Model {
    fm: bool,
    dollar: bool,
    leading_sign: bool,
    trailing_mi: bool,
    trailing_s: bool,
    int_fmt: Vec<char>,
    frac_fmt: Option<Vec<char>>,
}

impl View for Model {
    type V = Shape;

    closed spec fn view(&self) -> Shape {
        Shape {
            fm: self.fm,
            dollar: self.dollar,
            leading_sign: self.leading_sign,
            trailing_mi: self.trailing_mi,
            trailing_s: self.trailing_s,
            int_fmt: self.int_fmt@,
            frac_fmt: match self.frac_fmt {
                Some(f) => Some(f@),
                None => None,
            },
        }
    }
}

pub open spec fn starts_with(s: Seq<char>, head: Seq<char>) -> bool {
    s.len() >= head.len() && s.take(head.len() as int) == head
}

pub open spec fn ends_with(s: Seq<char>, tail: Seq<char>) -> bool {
    s.len() >= tail.len() && s.skip(s.len() - tail.len()) == tail
}

/// A text without `$` and `S`.
pub open spec fn without_signs(s: Seq<char>) -> Seq<char>
    decreases s.len(),
{
    if s.len() == 0 {
        Seq::empty()
    } else if s.last() == '$' || s.last() == 'S' {
        without_signs(s.drop_last())
    } else {
        without_signs(s.drop_last()).push(s.last())
    }
}

/// Where the decimal point stands, from `i` on.
pub open spec fn point_from(s: Seq<char>, i: int) -> Option<int>
    decreases s.len() - i,
{
    if i < 0 || i >= s.len() {
        None
    } else if s[i] == '.' || s[i] == 'D' {
        Some(i)
    } else {
        point_from(s, i + 1)
    }
}

pub open spec fn is_slot(c: char) -> bool {
    c == '9' || c == '0'
}

pub open spec fn all_slots(s: Seq<char>) -> bool {
    forall|i: int| 0 <= i < s.len() ==> is_slot(#[trigger] s[i])
}

pub open spec fn all_slots_or_commas(s: Seq<char>) -> bool {
    forall|i: int|
        0 <= i < s.len() ==> is_slot(#[trigger] s[i]) || s[i] == ',' || s[i] == 'G'
}

/// The parts of a format model; nothing when it is no number format.
pub open spec fn shape_of(fmt: Seq<char>) -> Option<Shape> {
    let all = text::upper(fmt);
    let fm = starts_with(all, "FM"@);
    let f = if fm {
        all.skip(2)
    } else {
        all
    };
    let leading_sign = f.len() > 0 && f[0] == 'S';
    let core = strings::replaced(without_signs(f), "MI"@, Seq::empty(), 0);
    let point = point_from(core, 0);
    let shape = Shape {
        fm,
        dollar: f.contains('$'),
        leading_sign,
        trailing_mi: ends_with(f, "MI"@),
        trailing_s: !leading_sign && f.len() > 0 && f.last() == 'S',
        int_fmt: match point {
            Some(i) => core.take(i),
            None => core,
        },
        frac_fmt: match point {
            Some(i) => Some(core.skip(i + 1)),
            None => None,
        },
    };
    let frac_ok = match shape.frac_fmt {
        Some(f) => all_slots(f) && f.len() <= number::MAX_SCALE,
        None => true,
    };
    if all_slots_or_commas(shape.int_fmt) && frac_ok {
        Some(shape)
    } else {
        None
    }
}

/// How many digits a model has room for, from a place on.
pub open spec fn slots_from(s: Seq<char>, i: int) -> int
    decreases s.len() - i,
{
    if i < 0 || i >= s.len() {
        0
    } else if is_slot(s[i]) {
        1 + slots_from(s, i + 1)
    } else {
        slots_from(s, i + 1)
    }
}

/// What stands at a place of the integer part: a digit, counted from the
/// right; where there is none, a zero from the first `0` of the model on; a
/// comma among digits; else a space.
pub open spec fn int_char(int_fmt: Seq<char>, digits: Seq<char>, i: int) -> char {
    let used = slots_from(int_fmt, i + 1);
    let zero = strings::index_from(int_fmt, '0', 0);
    if is_slot(int_fmt[i]) {
        if used < digits.len() {
            digits[digits.len() - 1 - used]
        } else if zero is Some && i >= zero->0 {
            '0'
        } else {
            ' '
        }
    } else if used < digits.len() || (zero is Some && i > zero->0) {
        ','
    } else {
        ' '
    }
}

pub open spec fn int_chars(int_fmt: Seq<char>, digits: Seq<char>) -> Seq<char> {
    Seq::new(int_fmt.len(), |i: int| int_char(int_fmt, digits, i))
}

/// The integer part. Without a fraction, zero shows as `0`.
pub open spec fn int_part(shape: Shape, digits: Seq<char>) -> Seq<char> {
    let out = int_chars(shape.int_fmt, digits);
    if digits.len() == 0 && shape.frac_fmt is None && !out.contains('0') && out.len() > 0 {
        out.update(out.len() - 1, '0')
    } else {
        out
    }
}

/// Where the last `0` of a text stands, plus one; 0 when there is none.
pub open spec fn behind_last_zero(s: Seq<char>) -> int
    decreases s.len(),
{
    if s.len() == 0 {
        0
    } else if s.last() == '0' {
        s.len() as int
    } else {
        behind_last_zero(s.drop_last())
    }
}

/// A text without the zeros at its end, as long as more than `keep` is left.
pub open spec fn cut_zeros(s: Seq<char>, keep: int) -> Seq<char>
    decreases s.len(),
{
    if s.len() > keep && s.len() > 0 && s.last() == '0' {
        cut_zeros(s.drop_last(), keep)
    } else {
        s
    }
}

/// The fraction, with its point. `FM` drops zeros at its end, down to the last
/// `0` of the model.
pub open spec fn frac_part(shape: Shape, frac: Seq<char>) -> Seq<char> {
    match shape.frac_fmt {
        None => Seq::empty(),
        Some(f) => seq!['.'] + if shape.fm {
            cut_zeros(frac, behind_last_zero(f))
        } else {
            frac
        },
    }
}

pub open spec fn sign_before(shape: Shape, negative: bool) -> Seq<char> {
    if shape.leading_sign {
        if negative {
            "-"@
        } else {
            "+"@
        }
    } else if shape.trailing_mi || shape.trailing_s {
        ""@
    } else if negative {
        "-"@
    } else if shape.fm {
        ""@
    } else {
        " "@
    }
}

pub open spec fn sign_after(shape: Shape, negative: bool) -> Seq<char> {
    if shape.trailing_mi {
        if negative {
            "-"@
        } else if shape.fm {
            ""@
        } else {
            " "@
        }
    } else if shape.trailing_s {
        if negative {
            "-"@
        } else {
            "+"@
        }
    } else {
        ""@
    }
}

/// The parts put together: padding, sign, currency, digits and sign.
pub open spec fn assembled(
    shape: Shape,
    negative: bool,
    digits: Seq<char>,
    frac: Seq<char>,
) -> Seq<char> {
    let int_str = int_part(shape, digits);
    let body = strings::trim_front(int_str, seq![' ']);
    let lead = int_str.len() - body.len();
    let padding = if shape.fm {
        Seq::empty()
    } else {
        Seq::new(lead as nat, |i: int| ' ')
    };
    let currency = if shape.dollar {
        "$"@
    } else {
        ""@
    };
    padding + sign_before(shape, negative) + currency + body + frac_part(shape, frac) + sign_after(
        shape,
        negative,
    )
}

/// How many places behind the point a model shows.
pub open spec fn places(shape: Shape) -> int {
    match shape.frac_fmt {
        Some(f) => f.len() as int,
        None => 0,
    }
}

/// What a number that was rounded to the places of a model shows.
pub open spec fn shown(r: Dec, shape: Shape, width: int) -> Seq<char> {
    let p = places(shape);
    let plain = number::plain(number::at_scale(number::magnitude(r), p), p);
    let point = strings::index_from(plain, '.', 0);
    let int_text = match point {
        Some(i) => plain.take(i),
        None => plain,
    };
    let frac = match point {
        Some(i) => plain.skip(i + 1),
        None => Seq::empty(),
    };
    let digits = if int_text == "0"@ {
        Seq::empty()
    } else {
        int_text
    };
    if digits.len() > slots_from(shape.int_fmt, 0) {
        Seq::new(width as nat, |i: int| '#')
    } else {
        assembled(shape, r.int_val < 0, digits, frac)
    }
}

pub open spec fn invalid_model() -> Failure {
    error::failure(1481, "invalid number format model"@)
}

pub open spec fn overflow() -> Failure {
    error::failure(1426, "numeric overflow"@)
}

/// TO_CHAR of a number by a format model.
pub open spec fn formatted(n: Dec, fmt: Seq<char>) -> Result<Seq<char>, Failure> {
    match shape_of(fmt) {
        None => Err(invalid_model()),
        Some(shape) => {
            let r = number::rounded(n, places(shape), Rounding::HalfUp);
            if number::in_range(r) {
                Ok(shown(r, shape, (encode_utf8(fmt).len() + 1) as int))
            } else {
                Err(overflow())
            }
        },
    }
}

fn strip_signs(s: &[char]) -> (r: Vec<char>)
    ensures
        r@ == without_signs(s@),
{
    let mut out: Vec<char> = Vec::new();
    for i in 0..s.len()
        invariant
            out@ == without_signs(s@.take(i as int)),
    {
        assert(s@.take(i + 1).drop_last() =~= s@.take(i as int));
        if s[i] != '$' && s[i] != 'S' {
            out.push(s[i]);
        }
    }
    assert(s@.take(s@.len() as int) =~= s@);
    out
}

fn find_point(s: &[char]) -> (r: Option<usize>)
    ensures
        match r {
            Some(i) => point_from(s@, 0) == Some(i as int) && i < s@.len(),
            None => point_from(s@, 0) is None,
        },
{
    let n: usize = s.len();
    let mut i: usize = 0;
    while i < n
        invariant
            i <= n == s@.len(),
            point_from(s@, 0) == point_from(s@, i as int),
        decreases n - i,
    {
        if s[i] == '.' || s[i] == 'D' {
            return Some(i);
        }
        i = i + 1;
    }
    None
}

fn only_slots(s: &[char], commas: bool) -> (r: bool)
    ensures
        r == if commas {
            all_slots_or_commas(s@)
        } else {
            all_slots(s@)
        },
{
    for i in 0..s.len()
        invariant
            forall|j: int|
                0 <= j < i ==> is_slot(#[trigger] s@[j]) || (commas && (s@[j] == ',' || s@[j]
                    == 'G')),
    {
        let c: char = s[i];
        if !(c == '9' || c == '0' || (commas && (c == ',' || c == 'G'))) {
            assert(!is_slot(s@[i as int]));
            return false;
        }
    }
    true
}

fn parse_model(fmt: &str) -> (r: Option<Model>)
    ensures
        match r {
            Some(m) => shape_of(fmt@) == Some(m@),
            None => shape_of(fmt@) is None,
        },
{
    let all = text::chars_of(&fmt.to_uppercase());
    proof {
        reveal_strlit("FM");
        reveal_strlit("MI");
    }
    let fm = all.len() >= 2 && all[0] == 'F' && all[1] == 'M';
    assert(fm == starts_with(all@, "FM"@)) by {
        if all@.len() >= 2 {
            let head = all@.take(2);
            assert(head[0] == all@[0] && head[1] == all@[1]);
            assert(fm ==> head =~= "FM"@);
        }
    }
    let f = if fm {
        text::slice(&all, 2, all.len())
    } else {
        all
    };
    let ghost fv = f@;
    assert(fv =~= (if fm {
        text::upper(fmt@).skip(2)
    } else {
        text::upper(fmt@)
    }));
    let n: usize = f.len();
    let mut dollar = false;
    for i in 0..n
        invariant
            n == f@.len(),
            dollar <==> exists|j: int| 0 <= j < i && #[trigger] f@[j] == '$',
    {
        if f[i] == '$' {
            dollar = true;
        }
    }
    assert(dollar == f@.contains('$'));
    let leading_sign = n > 0 && f[0] == 'S';
    let trailing_mi = n >= 2 && f[n - 2] == 'M' && f[n - 1] == 'I';
    assert(trailing_mi == ends_with(f@, "MI"@)) by {
        if n >= 2 {
            let tail = f@.skip(n - 2);
            assert(tail[0] == f@[n - 2] && tail[1] == f@[n - 1]);
            assert(trailing_mi ==> tail =~= "MI"@);
        }
    }
    let trailing_s = !leading_sign && n > 0 && f[n - 1] == 'S';
    let bare = strip_signs(&f);
    let mi = text::chars_of("MI");
    let nothing: Vec<char> = Vec::new();
    let core = text::chars_of(&strings::replace(&bare, &mi, &nothing));
    assert(nothing@ =~= Seq::<char>::empty());
    let total: usize = core.len();
    let (int_fmt, frac_fmt) = match find_point(&core) {
        Some(i) => {
            let a = text::slice(&core, 0, i);
            let b = text::slice(&core, i + 1, total);
            assert(a@ =~= core@.take(i as int));
            assert(b@ =~= core@.skip(i + 1));
            (a, Some(b))
        },
        None => (core, None),
    };
    if !only_slots(&int_fmt, true) {
        return None;
    }
    if let Some(b) = &frac_fmt {
        if !only_slots(b, false) || b.len() as u64 > number::MAX_SCALE as u64 {
            return None;
        }
    }
    Some(Model { fm, dollar, leading_sign, trailing_mi, trailing_s, int_fmt, frac_fmt })
}

proof fn slots_bound(s: Seq<char>, i: int)
    ensures
        0 <= slots_from(s, i),
        0 <= i <= s.len() ==> slots_from(s, i) <= s.len() - i,
    decreases s.len() - i,
{
    if 0 <= i < s.len() {
        slots_bound(s, i + 1);
    }
}

fn count_slots(s: &[char], from: usize) -> (r: usize)
    requires
        from <= s@.len(),
    ensures
        r == slots_from(s@, from as int),
{
    let n: usize = s.len();
    let mut i: usize = n;
    let mut r: usize = 0;
    while i > from
        invariant
            from <= i <= n == s@.len(),
            r == slots_from(s@, i as int),
            r <= n - i,
        decreases i,
    {
        i = i - 1;
        if s[i] == '9' || s[i] == '0' {
            r = r + 1;
        }
    }
    r
}

fn integer_part(m: &Model, digits: &[char]) -> (r: Vec<char>)
    ensures
        r@ == int_part(m@, digits@),
{
    let f = m.int_fmt.as_slice();
    let n: usize = f.len();
    let d: usize = digits.len();
    let zero = strings::index_of(f, '0');
    let mut out: Vec<char> = Vec::new();
    let mut zeros = false;
    for i in 0..n
        invariant
            n == f@.len(),
            d == digits@.len(),
            f@ == m.int_fmt@,
            match zero {
                Some(z) => strings::index_from(f@, '0', 0) == Some(z as int),
                None => strings::index_from(f@, '0', 0) is None,
            },
            out@ == int_chars(f@, digits@).take(i as int),
            zeros == out@.contains('0'),
    {
        let used: usize = count_slots(f, i + 1);
        let c: char = f[i];
        proof {
            slots_bound(f@, i + 1);
        }
        let from_zero = match zero {
            Some(z) => i >= z,
            None => false,
        };
        let behind_zero = match zero {
            Some(z) => i > z,
            None => false,
        };
        let shown: char = if c == '9' || c == '0' {
            if used < d {
                digits[d - 1 - used]
            } else if from_zero {
                '0'
            } else {
                ' '
            }
        } else if used < d || behind_zero {
            ','
        } else {
            ' '
        };
        let ghost had = out@;
        out.push(shown);
        proof {
            assert(out@ =~= int_chars(f@, digits@).take(i + 1));
            if shown == '0' {
                assert(out@[i as int] == '0');
            }
            if had.contains('0') {
                let k = choose|k: int| 0 <= k < had.len() && had[k] == '0';
                assert(out@[k] == '0');
            }
            if out@.contains('0') && shown != '0' {
                let k = choose|k: int| 0 <= k < out@.len() && out@[k] == '0';
                assert(had[k] == '0');
            }
        }
        if shown == '0' {
            zeros = true;
        }
    }
    assert(out@ =~= int_chars(f@, digits@));
    if d == 0 && m.frac_fmt.is_none() && !zeros && n > 0 {
        out.set(n - 1, '0');
    }
    out
}

fn last_zero(f: &[char]) -> (keep: usize)
    ensures
        keep == behind_last_zero(f@),
{
    let mut keep: usize = f.len();
    assert(f@.take(keep as int) =~= f@);
    while keep > 0 && f[keep - 1] != '0'
        invariant
            keep <= f@.len(),
            behind_last_zero(f@) == behind_last_zero(f@.take(keep as int)),
        decreases keep,
    {
        assert(f@.take(keep as int).drop_last() =~= f@.take(keep - 1));
        keep = keep - 1;
    }
    keep
}

fn drop_zeros(frac: &[char], keep: usize) -> (r: Vec<char>)
    ensures
        r@ == cut_zeros(frac@, keep as int),
{
    let mut end: usize = frac.len();
    assert(frac@.take(end as int) =~= frac@);
    while end > keep && frac[end - 1] == '0'
        invariant
            end <= frac@.len(),
            cut_zeros(frac@, keep as int) == cut_zeros(frac@.take(end as int), keep as int),
        decreases end,
    {
        assert(frac@.take(end as int).drop_last() =~= frac@.take(end - 1));
        end = end - 1;
    }
    let cut = text::slice(frac, 0, end);
    assert(cut@ =~= frac@.take(end as int));
    cut
}

fn fraction_part(m: &Model, frac: &[char]) -> (r: String)
    ensures
        r@ == frac_part(m@, frac@),
{
    let mut out = String::new();
    if let Some(f) = &m.frac_fmt {
        out.push('.');
        assert(out@ =~= seq!['.']);
        if m.fm {
            out.append(&text::string_of(&drop_zeros(frac, last_zero(f))));
        } else {
            out.append(&text::string_of(frac));
        }
    }
    out
}

proof fn trimmed_is_shorter(s: Seq<char>, set: Seq<char>)
    ensures
        strings::trim_front(s, set).len() <= s.len(),
    decreases s.len(),
{
    if s.len() > 0 && set.contains(s[0]) {
        trimmed_is_shorter(s.skip(1), set);
    }
}

fn assemble(m: &Model, negative: bool, digits: &[char], frac: &[char]) -> (r: String)
    ensures
        r@ == assembled(m@, negative, digits@, frac@),
{
    let int_str = integer_part(m, digits);
    let space: Vec<char> = vec![' '];
    assert(space@ =~= seq![' ']);
    let body = strings::ltrim(&int_str, &space);
    proof {
        trimmed_is_shorter(int_str@, space@);
    }
    let lead: usize = int_str.len() - body.len();
    let mut out = String::new();
    if !m.fm {
        for i in 0..lead
            invariant
                out@ == Seq::new(i as nat, |k: int| ' '),
        {
            out.push(' ');
            assert(out@ =~= Seq::new((i + 1) as nat, |k: int| ' '));
        }
    }
    out.append(
        if m.leading_sign {
            if negative {
                "-"
            } else {
                "+"
            }
        } else if m.trailing_mi || m.trailing_s {
            ""
        } else if negative {
            "-"
        } else if m.fm {
            ""
        } else {
            " "
        },
    );
    out.append(
        if m.dollar {
            "$"
        } else {
            ""
        },
    );
    out.append(&text::string_of(&body));
    out.append(&fraction_part(m, frac));
    out.append(
        if m.trailing_mi {
            if negative {
                "-"
            } else if m.fm {
                ""
            } else {
                " "
            }
        } else if m.trailing_s {
            if negative {
                "-"
            } else {
                "+"
            }
        } else {
            ""
        },
    );
    out
}

/// TO_CHAR(number, format) for the common format elements: 9 0 . D , G $ S MI FM.
pub fn format_number_with(n: &Number, fmt: &str) -> (r: Result<String, OraError>)
    ensures
        match r {
            Ok(s) => formatted(n@, fmt@) == Ok::<Seq<char>, Failure>(s@),
            Err(e) => error::failed(formatted(n@, fmt@), e),
        },
{
    let m = match parse_model(fmt) {
        Some(m) => m,
        None => {
            return Err(OraError::new(1481, "invalid number format model"));
        },
    };
    let p: i64 = match &m.frac_fmt {
        Some(f) => f.len() as i64,
        None => 0,
    };
    let rounded = match n.round(p, Rounding::HalfUp) {
        Some(x) => x,
        None => {
            return Err(OraError::new(1426, "numeric overflow"));
        },
    };
    let negative = rounded.sign() < 0;
    proof {
        number::rounded_scale(n@, p as int, Rounding::HalfUp);
    }
    let plain = text::chars_of(&rounded.abs().plain(p));
    let total: usize = plain.len();
    let (int_text, frac) = match strings::index_of(&plain, '.') {
        Some(i) => {
            let a = text::slice(&plain, 0, i);
            let b = text::slice(&plain, i + 1, total);
            assert(a@ =~= plain@.take(i as int));
            assert(b@ =~= plain@.skip(i + 1));
            (a, b)
        },
        None => (plain, Vec::new()),
    };
    assert("0"@ =~= seq!['0']) by {
        reveal_strlit("0");
    }
    let is_zero = int_text.len() == 1 && int_text[0] == '0';
    assert(is_zero == (int_text@ == "0"@)) by {
        if int_text@.len() == 1 {
            assert(int_text@ =~= seq![int_text@[0]]);
        }
    }
    let digits = if is_zero {
        Vec::new()
    } else {
        int_text
    };
    if digits.len() > count_slots(&m.int_fmt, 0) {
        let width: usize = fmt.as_bytes().len();
        let mut out = String::new();
        for i in 0..width
            invariant
                out@ == Seq::new(i as nat, |k: int| '#'),
        {
            out.push('#');
            assert(out@ =~= Seq::new((i + 1) as nat, |k: int| '#'));
        }
        out.push('#');
        assert(out@ =~= Seq::new((width + 1) as nat, |k: int| '#'));
        return Ok(out);
    }
    Ok(assemble(&m, negative, &digits, &frac))
}

} // verus!
