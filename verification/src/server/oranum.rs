//! Oracle's NUMBER wire format: an exponent byte followed by base-100 digits.

use vstd::prelude::*;
use vstd::string::*;

use crate::functions;
use crate::literals;
use crate::number;
use crate::number::Number;
use crate::strings;
use crate::text;
use crate::value::Value;

verus! {

pub const MAX_DIGITS: usize = 40;

/// A decimal: its sign, its digits and the power of ten that they are
/// multiplied with.
pub struct Decimal {
    pub negative: bool,
    pub digits: Seq<char>,
    pub exponent: int,
}

/// The exponent that a text stands for, if it fits in 32 bits.
pub open spec fn exponent_of(s: Seq<char>) -> Option<int> {
    let negative = s.len() > 0 && s[0] == '-';
    let d = if s.len() > 0 && (s[0] == '-' || s[0] == '+') {
        s.skip(1)
    } else {
        s
    };
    if d.len() == 0 || !number::all_digits(d) {
        None
    } else {
        let n = number::digits_value(d) as int;
        if negative && n <= 0x8000_0000 {
            Some(-n)
        } else if !negative && n <= 0x7fff_ffff {
            Some(n)
        } else {
            None
        }
    }
}

pub open spec fn zero_front(s: Seq<char>) -> Seq<char> {
    strings::trim_front(s, seq!['0'])
}

pub open spec fn zero_back(s: Seq<char>) -> Seq<char> {
    strings::trim_back(s, seq!['0'])
}

/// A decimal without zeros at either end of its digits.
pub open spec fn tight(negative: bool, digits: Seq<char>, exponent: int) -> Decimal {
    let front = zero_front(digits);
    let d = zero_back(front);
    Decimal { negative, digits: d, exponent: exponent + front.len() - d.len() }
}

/// The decimal that a text without a sign stands for.
pub open spec fn unsigned_decimal(s: Seq<char>, negative: bool) -> Option<Decimal> {
    let letter = number::letter_from(s, 0);
    let power = match letter {
        Some(i) => exponent_of(s.skip(i + 1)),
        None => Some(0),
    };
    let mantissa = match letter {
        Some(i) => s.take(i),
        None => s,
    };
    match power {
        None => None,
        Some(power) => {
            let (digits, exponent) = match strings::index_from(mantissa, '.', 0) {
                Some(i) => (
                    mantissa.take(i) + mantissa.skip(i + 1),
                    power - (mantissa.len() - i - 1),
                ),
                None => (mantissa, power),
            };
            if number::all_digits(digits) {
                Some(tight(negative, digits, exponent))
            } else {
                None
            }
        },
    }
}

/// The decimal that a text stands for.
pub open spec fn decimal_of(s: Seq<char>) -> Option<Decimal> {
    if s.len() > 0 && s[0] == '-' {
        unsigned_decimal(s.skip(1), true)
    } else {
        unsigned_decimal(s, false)
    }
}

/// The digits, an even number of them, with an even exponent.
pub open spec fn even_digits(d: Decimal) -> Seq<char> {
    let tail = if d.exponent % 2 != 0 {
        d.digits.push('0')
    } else {
        d.digits
    };
    if tail.len() % 2 == 1 {
        seq!['0'] + tail
    } else {
        tail
    }
}

pub open spec fn even_exponent(d: Decimal) -> int {
    if d.exponent % 2 != 0 {
        d.exponent - 1
    } else {
        d.exponent
    }
}

/// The base-100 digit that stands at a place.
pub open spec fn pair(digits: Seq<char>, i: int) -> int {
    (digits[2 * i] as u32 - 48) * 10 + (digits[2 * i + 1] as u32 - 48)
}

/// Whether a decimal fits the format.
pub open spec fn encodable(d: Decimal) -> bool {
    d.digits.len() <= MAX_DIGITS && -131 < d.exponent < 126
}

/// The exponent byte of a positive decimal.
pub open spec fn exponent_byte(d: Decimal) -> u8 {
    ((even_exponent(d) + even_digits(d).len()) / 2 + 192) as u8
}

/// The bytes of a decimal: the exponent and the digits, each plus one. For a
/// negative one all are turned round, and an end mark follows unless the digits
/// fill the format.
pub open spec fn wire(d: Decimal) -> Seq<u8> {
    let digits = even_digits(d);
    if d.digits.len() == 0 {
        seq![0x80u8]
    } else if d.negative {
        seq![(255 - exponent_byte(d)) as u8] + Seq::new(
            digits.len() / 2,
            |i: int| (101 - pair(digits, i)) as u8,
        ) + if digits.len() < MAX_DIGITS {
            seq![102u8]
        } else {
            Seq::empty()
        }
    } else {
        seq![exponent_byte(d)] + Seq::new(
            digits.len() / 2,
            |i: int| (pair(digits, i) + 1) as u8,
        )
    }
}

/// The bytes of the decimal that a text stands for, if there is one that fits.
pub open spec fn encoded(s: Seq<char>) -> Option<Seq<u8>> {
    match decimal_of(s) {
        Some(d) => if encodable(d) {
            Some(wire(d))
        } else {
            None
        },
        None => None,
    }
}

struct Parts {
    negative: bool,
    digits: Vec<char>,
    exponent: i128,
}

impl Parts {
    spec fn decimal(self) -> Decimal {
        Decimal { negative: self.negative, digits: self.digits@, exponent: self.exponent as int }
    }
}

fn find_letter(s: &[char]) -> (r: Option<usize>)
    ensures
        match r {
            Some(i) => number::letter_from(s@, 0) == Some(i as int) && i < s@.len(),
            None => number::letter_from(s@, 0) is None,
        },
{
    let n: usize = s.len();
    let mut i: usize = 0;
    while i < n
        invariant
            i <= n == s@.len(),
            number::letter_from(s@, 0) == number::letter_from(s@, i as int),
        decreases n - i,
    {
        if s[i] == 'e' || s[i] == 'E' {
            return Some(i);
        }
        i = i + 1;
    }
    None
}

fn only_digits(s: &[char]) -> (r: bool)
    ensures
        r == number::all_digits(s@),
{
    for i in 0..s.len()
        invariant
            forall|j: int| 0 <= j < i ==> text::is_digit(#[trigger] s@[j]),
    {
        if !text::digit_of(s[i]) {
            assert(!text::is_digit(s@[i as int]));
            return false;
        }
    }
    true
}

pub(crate) fn parse_exponent(s: &[char]) -> (r: Option<i64>)
    ensures
        match r {
            Some(n) => exponent_of(s@) == Some(n as int) && -0x8000_0000 <= n <= 0x7fff_ffff,
            None => exponent_of(s@) is None,
        },
{
    let negative = s.len() > 0 && s[0] == '-';
    let from: usize = if s.len() > 0 && (s[0] == '-' || s[0] == '+') {
        1
    } else {
        0
    };
    let d = text::slice(s, from, s.len());
    assert(d@ =~= (if s@.len() > 0 && (s@[0] == '-' || s@[0] == '+') {
        s@.skip(1)
    } else {
        s@
    }));
    if d.len() == 0 || !only_digits(&d) {
        return None;
    }
    let mut n: i64 = 0;
    assert(d@.take(0) =~= Seq::<char>::empty());
    for i in 0..d.len()
        invariant
            number::all_digits(d@),
            n == number::digits_value(d@.take(i as int)),
            0 <= n <= 0x8000_0000,
            d@ == (if s@.len() > 0 && (s@[0] == '-' || s@[0] == '+') {
                s@.skip(1)
            } else {
                s@
            }),
    {
        let c: char = d[i];
        assert(text::is_digit(d@[i as int]));
        assert(d@.take(i + 1).drop_last() =~= d@.take(i as int));
        n = n * 10 + (c as u32 - 48) as i64;
        if n > 0x8000_0000 {
            proof {
                functions::digits_grow(d@, i + 1);
            }
            return None;
        }
    }
    assert(d@.take(d@.len() as int) =~= d@);
    if negative {
        Some(-n)
    } else if n <= 0x7fff_ffff {
        Some(n)
    } else {
        None
    }
}

proof fn trims_are_shorter(s: Seq<char>)
    ensures
        zero_front(s).len() <= s.len(),
        zero_back(s).len() <= s.len(),
        number::all_digits(s) ==> number::all_digits(zero_front(s)) && number::all_digits(
            zero_back(s),
        ),
    decreases s.len(),
{
    if s.len() > 0 {
        let f = s.skip(1);
        let b = s.drop_last();
        trims_are_shorter(f);
        trims_are_shorter(b);
        if number::all_digits(s) {
            assert forall|i: int| 0 <= i < f.len() implies text::is_digit(#[trigger] f[i]) by {
                assert(f[i] == s[i + 1]);
            }
            assert forall|i: int| 0 <= i < b.len() implies text::is_digit(#[trigger] b[i]) by {
                assert(b[i] == s[i]);
            }
        }
    }
}

fn parse_unsigned(s: &[char], negative: bool) -> (r: Option<Parts>)
    ensures
        match r {
            Some(p) => unsigned_decimal(s@, negative) == Some(p.decimal()) && number::all_digits(
                p.digits@,
            ),
            None => unsigned_decimal(s@, negative) is None,
        },
{
    let letter = find_letter(s);
    let total: usize = s.len();
    let (mantissa, power): (Vec<char>, i64) = match letter {
        Some(i) => {
            let tail = text::slice(s, i + 1, total);
            assert(tail@ =~= s@.skip(i + 1));
            let head = text::slice(s, 0, i);
            assert(head@ =~= s@.take(i as int));
            match parse_exponent(&tail) {
                Some(n) => (head, n),
                None => {
                    return None;
                },
            }
        },
        None => {
            let all = text::slice(s, 0, total);
            assert(all@ =~= s@);
            (all, 0)
        },
    };
    let m: usize = mantissa.len();
    let (digits, exponent): (Vec<char>, i128) = match strings::index_of(&mantissa, '.') {
        Some(i) => {
            let mut d = text::slice(&mantissa, 0, i);
            let rest = text::slice(&mantissa, i + 1, m);
            d.extend_from_slice(&rest);
            assert(d@ =~= mantissa@.take(i as int) + mantissa@.skip(i + 1));
            (d, power as i128 - (m - i - 1) as i128)
        },
        None => (mantissa, power as i128),
    };
    if !only_digits(&digits) {
        return None;
    }
    let zero: Vec<char> = vec!['0'];
    assert(zero@ =~= seq!['0']);
    let front = strings::ltrim(&digits, &zero);
    let d = strings::rtrim(&front, &zero);
    proof {
        trims_are_shorter(digits@);
        trims_are_shorter(front@);
    }
    let gap: i128 = (front.len() - d.len()) as i128;
    Some(Parts { negative, digits: d, exponent: exponent + gap })
}

fn parse_decimal(value: &str) -> (r: Option<Parts>)
    ensures
        match r {
            Some(p) => decimal_of(value@) == Some(p.decimal()) && number::all_digits(p.digits@),
            None => decimal_of(value@) is None,
        },
{
    let s = text::chars_of(value);
    if s.len() > 0 && s[0] == '-' {
        let rest = text::slice(&s, 1, s.len());
        assert(rest@ =~= s@.skip(1));
        parse_unsigned(&rest, true)
    } else {
        parse_unsigned(&s, false)
    }
}

/// Encodes a decimal string (e.g. `-12.5`) without its length prefix.
#[verifier::spinoff_prover]
#[verifier::rlimit(60)]
pub fn encode(value: &str) -> (r: Option<Vec<u8>>)
    ensures
        match r {
            Some(b) => encoded(value@) == Some(b@),
            None => encoded(value@) is None,
        },
{
    let p = match parse_decimal(value) {
        Some(p) => p,
        None => {
            return None;
        },
    };
    let ghost d = p.decimal();
    if p.digits.len() > MAX_DIGITS || p.exponent >= 126 || p.exponent <= -131 {
        return None;
    }
    if p.digits.len() == 0 {
        let mut out: Vec<u8> = Vec::new();
        out.push(0x80);
        assert(out@ =~= wire(d));
        return Some(out);
    }
    let mut exponent: i64 = p.exponent as i64;
    let mut digits: Vec<char> = Vec::new();
    let odd = exponent % 2 != 0;
    assert(odd == (d.exponent % 2 != 0));
    let count: usize = if odd {
        p.digits.len() + 1
    } else {
        p.digits.len()
    };
    if count % 2 == 1 {
        digits.push('0');
    }
    digits.extend_from_slice(&p.digits);
    if odd {
        exponent = exponent - 1;
        digits.push('0');
    }
    assert(digits@ =~= even_digits(d));
    let n: usize = digits.len();
    assert forall|i: int| 0 <= i < n implies text::is_digit(#[trigger] digits@[i]) by {
        if count % 2 == 1 {
            assert(i == 0 || i - 1 >= p.digits@.len() || digits@[i] == p.digits@[i - 1]);
        } else {
            assert(i >= p.digits@.len() || digits@[i] == p.digits@[i]);
        }
    }
    assert((even_exponent(d) + n) % 2 == 0);
    let half: i64 = (exponent + n as i64) / 2;
    let byte: u8 = (half + 192) as u8;
    let mut out: Vec<u8> = Vec::new();
    if p.negative {
        out.push(255 - byte);
    } else {
        out.push(byte);
    }
    let ghost first = out@;
    let ghost body = Seq::new(
        even_digits(d).len() / 2,
        |i: int|
            if d.negative {
                (101 - pair(even_digits(d), i)) as u8
            } else {
                (pair(even_digits(d), i) + 1) as u8
            },
    );
    for i in 0..n / 2
        invariant
            n == digits@.len() <= 42,
            n % 2 == 0,
            digits@ == even_digits(d),
            p.negative == d.negative,
            number::all_digits(digits@),
            body == Seq::new(
                even_digits(d).len() / 2,
                |i: int|
                    if d.negative {
                        (101 - pair(even_digits(d), i)) as u8
                    } else {
                        (pair(even_digits(d), i) + 1) as u8
                    },
            ),
            out@ == first + body.take(i as int),
    {
        assert(text::is_digit(digits@[2 * i]) && text::is_digit(digits@[2 * i + 1]));
        let hi: u8 = (digits[2 * i] as u32 - 48) as u8;
        let lo: u8 = (digits[2 * i + 1] as u32 - 48) as u8;
        let v: u8 = hi * 10 + lo;
        out.push(
            if p.negative {
                101 - v
            } else {
                v + 1
            },
        );
        assert(out@ =~= first + body.take(i + 1));
    }
    if p.negative && n < MAX_DIGITS {
        out.push(102);
    }
    assert(out@ =~= wire(d));
    Some(out)
}

/// The bytes of a value that is a number.
pub fn encode_value(v: &Value) -> (r: Option<Vec<u8>>)
    ensures
        match v {
            Value::Number(n) => match r {
                Some(b) => encoded(number::scientific(n@)) == Some(b@),
                None => encoded(number::scientific(n@)) is None,
            },
            _ => r is None,
        },
{
    match v {
        Value::Number(n) => encode(&n.scientific()),
        _ => None,
    }
}

/// The base-100 digits behind the exponent byte; values out of range are kept.
pub open spec fn wire_digits(buf: Seq<u8>) -> Seq<int> {
    let positive = buf[0] >= 128;
    let end = if !positive && buf.last() == 102 {
        buf.len() - 1
    } else {
        buf.len() as int
    };
    Seq::new(
        (end - 1) as nat,
        |i: int|
            if positive {
                buf[i + 1] - 1
            } else {
                101 - buf[i + 1]
            },
    )
}

/// Base-100 digits as decimal digits.
pub open spec fn digit_text(d: Seq<int>) -> Seq<char> {
    Seq::new(
        2 * d.len(),
        |k: int|
            text::digit_char(
                if k % 2 == 0 {
                    d[k / 2] / 10
                } else {
                    d[k / 2] % 10
                },
            ),
    )
}

/// A number in the fraction notation, without a zero at its front.
pub open spec fn fraction_of(negative: bool, digits: Seq<char>, point: int) -> Seq<char> {
    if digits.len() > 0 && digits[0] == '0' {
        literals::fraction_literal(negative, digits.skip(1), point - 1)
    } else {
        literals::fraction_literal(negative, digits, point)
    }
}

/// Whether bytes hold digits behind the exponent byte, each in range.
pub open spec fn whole_digits(buf: Seq<u8>) -> bool {
    let d = wire_digits(buf);
    buf.len() >= 2 && forall|i: int| 0 <= i < d.len() ==> 0 <= #[trigger] d[i] <= 99
}

/// The fraction that the exponent byte and the digits behind it spell.
pub open spec fn wire_fraction(buf: Seq<u8>) -> Seq<char> {
    let positive = buf[0] >= 128;
    let exponent = (if positive {
        buf[0] as int
    } else {
        255 - buf[0]
    }) - 193;
    fraction_of(!positive, digit_text(wire_digits(buf)), exponent * 2 + 2)
}

/// The decimal string that NUMBER bytes stand for.
pub open spec fn decoded(buf: Seq<u8>) -> Seq<char> {
    if buf.len() == 1 && buf[0] < 128 {
        "-1e126"@
    } else if !whole_digits(buf) {
        "0"@
    } else {
        match number::number_of(wire_fraction(buf)) {
            Some(n) => number::number_text(n),
            None => "0"@,
        }
    }
}

/// What is written is read back: the bytes of a decimal are read as the
/// number that the decimal stands for.
pub open spec fn gives_back(buf: Seq<u8>, read: Seq<char>) -> bool {
    forall|d: Decimal|
        buf == #[trigger] wire(d) && d.digits.len() > 0 && number::all_digits(d.digits)
            && encodable(d) && in_wire_range(d) ==> read == number::number_text(decimal_value(d))
}

/// Decodes NUMBER bytes (without the length prefix) to a decimal string.
pub fn decode(buf: &[u8]) -> (r: String)
    ensures
        r@ == decoded(buf@),
        gives_back(buf@, r@),
{
    let r = decode_bytes(buf);
    proof {
        assert forall|d: Decimal|
            buf@ == #[trigger] wire(d) && d.digits.len() > 0 && number::all_digits(d.digits)
                && encodable(d) && in_wire_range(d) implies decoded(buf@) == number::number_text(
            decimal_value(d),
        ) by {
            wire_is_whole(d);
            wire_reads_back(d);
        }
    }
    r
}

fn decode_bytes(buf: &[u8]) -> (r: String)
    ensures
        r@ == decoded(buf@),
{
    let len: usize = buf.len();
    if len == 0 {
        return "0".to_owned();
    }
    let first: u8 = buf[0];
    let positive = first >= 128;
    let exponent: i64 = (if positive {
        first as i64
    } else {
        255 - first as i64
    }) - 193;
    let mut point: i64 = exponent * 2 + 2;
    if len == 1 {
        return if positive {
            "0".to_owned()
        } else {
            "-1e126".to_owned()
        };
    }
    let end: usize = if !positive && buf[len - 1] == 102 {
        len - 1
    } else {
        len
    };
    let ghost d = wire_digits(buf@);
    let mut digits: Vec<char> = Vec::new();
    let mut i: usize = 1;
    while i < end
        invariant
            1 <= i <= end <= len == buf@.len(),
            len >= 2,
            d == wire_digits(buf@),
            positive == (buf@[0] >= 128),
            d.len() == end - 1,
            forall|k: int| 0 <= k < i - 1 ==> 0 <= #[trigger] d[k] <= 99,
            digits@ == digit_text(d).take(2 * (i - 1)),
        decreases end - i,
    {
        let v: i32 = if positive {
            buf[i] as i32 - 1
        } else {
            101 - buf[i] as i32
        };
        assert(d[i - 1] == v);
        if v < 0 || v > 99 {
            assert(!(0 <= d[i - 1] <= 99));
            return "0".to_owned();
        }
        digits.push(text::digit((v / 10) as u8));
        digits.push(text::digit((v % 10) as u8));
        proof {
            let t = digit_text(d);
            let k: int = 2 * (i - 1);
            assert(k % 2 == 0 && k / 2 == i - 1);
            assert((k + 1) % 2 == 1 && (k + 1) / 2 == i - 1);
            assert(t.take(k + 2) =~= t.take(k).push(t[k]).push(t[k + 1]));
        }
        i = i + 1;
    }
    assert(digit_text(d).take(2 * (end - 1)) =~= digit_text(d));
    let ghost all = digits@;
    let start: usize = if digits.len() > 0 && digits[0] == '0' {
        1
    } else {
        0
    };
    let ghost from = point;
    if start == 1 {
        point = point - 1;
    }
    let shown = text::slice(&digits, start, digits.len());
    let mut t = String::new();
    if !positive {
        t.push('-');
    }
    t.push('0');
    t.push('.');
    t.append(&text::string_of(&shown));
    t.push('e');
    t.append(&text::integer_text(point));
    proof {
        assert(shown@ =~= all.skip(start as int));
        assert(all.skip(0) =~= all);
        assert(t@ =~= fraction_of(!positive, all, from as int));
        assert(t@ == wire_fraction(buf@));
    }
    match Number::parse(&t) {
        Some(n) => number::format_number(&n),
        None => "0".to_owned(),
    }
}

/// The number that a decimal stands for.
pub open spec fn decimal_value(d: Decimal) -> number::Dec {
    let i = number::digits_value(d.digits) as int;
    number::lowest(
        if d.negative {
            -i
        } else {
            i
        },
        -d.exponent,
    )
}

/// Whether a decimal's exponent byte is one that the format has room for.
pub open spec fn in_wire_range(d: Decimal) -> bool {
    -64 <= (even_exponent(d) + even_digits(d).len()) / 2 <= 63
}

proof fn value_of_push(s: Seq<char>, c: char)
    ensures
        number::digits_value(s.push(c)) == number::digits_value(s) * 10 + (c as u32 - 48) as nat,
{
    assert(s.push(c).drop_last() =~= s);
}

proof fn value_behind_zero(s: Seq<char>)
    ensures
        number::digits_value(seq!['0'] + s) == number::digits_value(s),
    decreases s.len(),
{
    let t = seq!['0'] + s;
    if s.len() == 0 {
        assert(t.drop_last() =~= Seq::<char>::empty());
        assert(number::digits_value(t.drop_last()) == 0);
    } else {
        assert(t.drop_last() =~= seq!['0'] + s.drop_last());
        value_behind_zero(s.drop_last());
    }
}

pub proof fn lowest_of_ten_times(i: int, s: int)
    ensures
        number::lowest(10 * i, s + 1) == number::lowest(i, s),
{
    if i != 0 {
        assert((10 * i) % 10 == 0 && (10 * i) / 10 == i);
    }
}

pub proof fn even_digits_value(d: Decimal)
    requires
        number::all_digits(d.digits),
    ensures
        number::all_digits(even_digits(d)),
        even_digits(d).len() % 2 == 0,
        number::digits_value(even_digits(d)) == (if d.exponent % 2 != 0 {
            10 * number::digits_value(d.digits)
        } else {
            number::digits_value(d.digits)
        }),
{
    let tail = if d.exponent % 2 != 0 {
        d.digits.push('0')
    } else {
        d.digits
    };
    value_of_push(d.digits, '0');
    value_behind_zero(tail);
    assert(number::all_digits(tail));
    assert(number::all_digits(even_digits(d)));
}

/// The decimal digits come back from the base-100 digits.
proof fn digits_come_back(d: Decimal)
    requires
        number::all_digits(d.digits),
        d.digits.len() > 0,
        encodable(d),
        in_wire_range(d),
    ensures
        ({
            let buf = wire(d);
            let w = wire_digits(buf);
            &&& buf.len() >= 2
            &&& (buf[0] >= 128) == !d.negative
            &&& (if d.negative {
                255 - buf[0]
            } else {
                buf[0] as int
            }) == (even_exponent(d) + even_digits(d).len()) / 2 + 192
            &&& forall|i: int| 0 <= i < w.len() ==> 0 <= #[trigger] w[i] <= 99
            &&& digit_text(w) == even_digits(d)
        }),
{
    even_digits_value(d);
    let e = even_digits(d);
    let buf = wire(d);
    let w = wire_digits(buf);
    assert forall|i: int| 0 <= i < e.len() / 2 implies 0 <= #[trigger] pair(e, i) <= 99 by {
        assert(text::is_digit(e[2 * i]) && text::is_digit(e[2 * i + 1]));
    }
    let half = e.len() / 2;
    assert(half >= 1);
    if d.negative {
        assert(buf[half as int] == (101 - pair(e, half - 1)) as u8);
        assert(pair(e, half - 1) >= 0);
        if e.len() < MAX_DIGITS {
            assert(buf.last() == 102);
        } else {
            assert(buf.last() == buf[half as int]);
            assert(buf.last() != 102);
        }
    }
    assert(w.len() == half);
    assert forall|i: int| 0 <= i < w.len() implies #[trigger] w[i] == pair(e, i) by {
        assert(0 <= pair(e, i) <= 99);
        if d.negative {
            assert(buf[i + 1] == (101 - pair(e, i)) as u8);
        } else {
            assert(buf[i + 1] == (pair(e, i) + 1) as u8);
        }
    }
    let t = digit_text(w);
    assert(t.len() == e.len());
    assert forall|k: int| 0 <= k < t.len() implies t[k] == e[k] by {
        let i = k / 2;
        assert(w[i] == pair(e, i));
        assert(text::is_digit(e[2 * i]) && text::is_digit(e[2 * i + 1]));
        let hi = e[2 * i] as u32 - 48;
        let lo = e[2 * i + 1] as u32 - 48;
        assert((hi * 10 + lo) / 10 == hi && (hi * 10 + lo) % 10 == lo);
        vstd::utf8::char_u32_cast(e[2 * i], (hi + 48) as u32);
        vstd::utf8::char_u32_cast(e[2 * i + 1], (lo + 48) as u32);
        if k % 2 == 0 {
            assert(k == 2 * i);
        } else {
            assert(k == 2 * i + 1);
        }
    }
    assert(t =~= e);
}

spec fn power(n: nat) -> nat
    decreases n,
{
    if n == 0 {
        1
    } else {
        10 * power((n - 1) as nat)
    }
}

proof fn lowest_scale(i: int, s: int, n: nat)
    requires
        -(power(n) as int) < i < power(n),
    ensures
        s - n <= number::lowest(i, s).scale <= s || number::lowest(i, s).scale == 0,
    decreases n,
{
    if i != 0 && i % 10 == 0 {
        assert(n > 0) by {
            reveal_with_fuel(power, 2);
        }
        assert(-(power((n - 1) as nat) as int) < i / 10 < power((n - 1) as nat));
        lowest_scale(i / 10, s - 1, (n - 1) as nat);
    }
}

proof fn digits_are_bounded(s: Seq<char>)
    requires
        number::all_digits(s),
    ensures
        number::digits_value(s) < power(s.len()),
    decreases s.len(),
{
    if s.len() > 0 {
        assert(text::is_digit(s.last()));
        assert(number::all_digits(s.drop_last()));
        digits_are_bounded(s.drop_last());
    }
}

/// The fraction that is read stands for the decimal that was written.
proof fn fraction_is_the_decimal(d: Decimal, t: Seq<char>)
    requires
        d.digits.len() > 0,
        number::all_digits(d.digits),
        encodable(d),
        in_wire_range(d),
        t == fraction_of(
            d.negative,
            even_digits(d),
            even_exponent(d) + even_digits(d).len(),
        ),
    ensures
        number::number_of(t) == Some(decimal_value(d)),
{
    even_digits_value(d);
    let e = even_digits(d);
    let point = even_exponent(d) + e.len();
    let (shown, at) = if e[0] == '0' {
        (e.skip(1), point - 1)
    } else {
        (e, point)
    };
    if e[0] == '0' {
        assert(seq!['0'] + e.skip(1) =~= e);
        value_behind_zero(e.skip(1));
    }
    assert(number::all_digits(shown));
    assert(t == literals::fraction_literal(d.negative, shown, at));
    let v = number::digits_value(e) as int;
    let i = if d.negative {
        -v
    } else {
        v
    };
    literals::fractions_are_literals(d.negative, shown, at);
    assert(number::literal(t) == Some((i, -even_exponent(d))));
    let whole = number::digits_value(d.digits) as int;
    if d.exponent % 2 != 0 {
        lowest_of_ten_times(
            if d.negative {
                -whole
            } else {
                whole
            },
            -d.exponent,
        );
    }
    digits_are_bounded(e);
    lowest_scale(i, -even_exponent(d), e.len());
}

#[verifier::spinoff_prover]
#[verifier::rlimit(60)]
proof fn wire_is_whole(d: Decimal)
    requires
        d.digits.len() > 0,
        number::all_digits(d.digits),
        encodable(d),
        in_wire_range(d),
    ensures
        whole_digits(wire(d)),
        wire(d).len() >= 2,
        wire_fraction(wire(d)) == fraction_of(
            d.negative,
            even_digits(d),
            even_exponent(d) + even_digits(d).len(),
        ),
{
    digits_come_back(d);
    even_digits_value(d);
    assert((even_exponent(d) + even_digits(d).len()) % 2 == 0);
}

pub proof fn wire_reads_back(d: Decimal)
    requires
        d.digits.len() > 0,
        number::all_digits(d.digits),
        encodable(d),
        in_wire_range(d),
    ensures
        decoded(wire(d)) == number::number_text(decimal_value(d)),
{
    wire_is_whole(d);
    fraction_is_the_decimal(d, wire_fraction(wire(d)));
}

} // verus!
