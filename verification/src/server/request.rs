//! What a client asks for: the contents of login and execute requests.

use vstd::prelude::*;
use vstd::string::*;
use vstd::utf8::*;

use crate::datetime;
use crate::datetime::Moment;
use crate::functions;
use crate::number;
use crate::plsql::vars;
use crate::server::message;
use crate::server::message::{decode_date, MSG_ROW_DATA};
use crate::server::oranum;
use crate::server::tns::{invalid, ProtocolError};
use crate::server::ttc;
use crate::server::ttc::{ReadBuf, Reading};
use crate::text;
use crate::value;
use crate::value::{Datum, Value};

verus! {

/// The bit of an execute request's options that says that binds follow.
pub const EXEC_BIND: u32 = 0x08;

/// The bit that says that column definitions follow.
pub const EXEC_DEFINE: u32 = 0x10;

/// The bit that asks for rows at once.
pub const EXEC_FETCH: u32 = 0x40;

/// The bit that asks for a commit on success.
pub const EXEC_COMMIT: u32 = 0x100;

/// How a number of a request is written.
#[derive(Clone, Copy, Debug, PartialEq, Eq, Structural)]
pub enum Field {
    Byte,
    Short,
    Long,
}

/// One number at the front of `s`.
pub open spec fn read_field(s: Seq<u8>, k: Field) -> Reading<int> {
    match k {
        Field::Byte => {
            let x = ttc::read_u8(s);
            match x.0 {
                Ok(v) => (Ok(v as int), x.1),
                Err(e) => (Err(e), x.1),
            }
        },
        Field::Short => {
            let x = ttc::read_ub(s, 2);
            match x.0 {
                Ok(v) => (Ok(v as int), x.1),
                Err(e) => (Err(e), x.1),
            }
        },
        Field::Long => {
            let x = ttc::read_ub(s, 4);
            match x.0 {
                Ok(v) => (Ok(v as int), x.1),
                Err(e) => (Err(e), x.1),
            }
        },
    }
}

/// The numbers at the front of `s`, one for each kind.
pub open spec fn read_fields(s: Seq<u8>, kinds: Seq<Field>) -> Reading<Seq<int>>
    decreases kinds.len(),
{
    if kinds.len() == 0 {
        (Ok(Seq::empty()), s)
    } else {
        let front = read_fields(s, kinds.drop_last());
        match front.0 {
            Err(e) => (Err(e), front.1),
            Ok(v) => {
                let x = read_field(front.1, kinds.last());
                match x.0 {
                    Ok(n) => (Ok(v.push(n)), x.1),
                    Err(e) => (Err(e), x.1),
                }
            },
        }
    }
}

pub open spec fn numbers(v: Seq<u32>) -> Seq<int> {
    Seq::new(v.len(), |i: int| v[i] as int)
}

/// Nothing is read behind a number that cannot be read.
proof fn reading_stops(s: Seq<u8>, kinds: Seq<Field>, i: int)
    requires
        0 <= i <= kinds.len(),
        read_fields(s, kinds.take(i)).0 is Err,
    ensures
        read_fields(s, kinds) == read_fields(s, kinds.take(i)),
    decreases kinds.len() - i,
{
    if i == kinds.len() {
        assert(kinds.take(i) =~= kinds);
    } else {
        assert(kinds.take(i + 1).drop_last() =~= kinds.take(i));
        reading_stops(s, kinds, i + 1);
    }
}

fn field(r: &mut ReadBuf, k: Field) -> (x: Result<u32, ProtocolError>)
    ensures
        ttc::gave(read_field(old(r)@, k), ttc::outcome(x, |v: u32| v as int), final(r)@),
{
    match k {
        Field::Byte => match r.u8() {
            Ok(v) => Ok(v as u32),
            Err(e) => Err(e),
        },
        Field::Short => match r.ub2() {
            Ok(v) => Ok(v as u32),
            Err(e) => Err(e),
        },
        Field::Long => r.ub4(),
    }
}

pub(crate) fn fields(r: &mut ReadBuf, kinds: &Vec<Field>) -> (x: Result<Vec<u32>, ProtocolError>)
    ensures
        ttc::gave(
            read_fields(old(r)@, kinds@),
            ttc::outcome(x, |v: Vec<u32>| numbers(v@)),
            final(r)@,
        ),
        x matches Ok(v) ==> v@.len() == kinds@.len(),
{
    let ghost start = r@;
    let mut out: Vec<u32> = Vec::new();
    assert(kinds@.take(0) =~= Seq::<Field>::empty());
    assert(numbers(out@) =~= Seq::<int>::empty());
    for i in 0..kinds.len()
        invariant
            out@.len() == i,
            start == old(r)@,
            read_fields(start, kinds@.take(i as int)) == (
                Ok::<Seq<int>, Seq<char>>(numbers(out@)),
                r@,
            ),
    {
        let ghost had = numbers(out@);
        assert(kinds@.take(i + 1).drop_last() =~= kinds@.take(i as int));
        assert(kinds@.take(i + 1).last() == kinds@[i as int]);
        match field(r, kinds[i]) {
            Ok(v) => {
                out.push(v);
                assert(numbers(out@) =~= had.push(v as int));
            },
            Err(e) => {
                proof {
                    reading_stops(start, kinds@, i + 1);
                }
                return Err(e);
            },
        }
    }
    assert(kinds@.take(kinds@.len() as int) =~= kinds@);
    Ok(out)
}

/// The numbers in front of a login request's texts: behind a pointer the length
/// of the user's name, the mode, and behind another the number of pairs.
pub open spec fn login_layout() -> Seq<Field> {
    seq![
        Field::Byte,
        Field::Long,
        Field::Long,
        Field::Byte,
        Field::Long,
        Field::Byte,
        Field::Byte,
    ]
}

/// A login request: who logs in, and the pairs that come with the name.
pub struct Login {
    pub user: String,
    pub pairs: Vec<(String, String)>,
}

/// A login request in terms of its texts.
pub struct LoginParts {
    pub user: Seq<char>,
    pub pairs: Seq<(Seq<char>, Seq<char>)>,
}

impl View for Login {
    type V = LoginParts;

    open spec fn view(&self) -> LoginParts {
        LoginParts { user: self.user@, pairs: pair_texts(self.pairs@) }
    }
}

pub open spec fn pair_texts(p: Seq<(String, String)>) -> Seq<(Seq<char>, Seq<char>)> {
    Seq::new(p.len(), |i: int| (p[i].0@, p[i].1@))
}

/// `n` pairs at the front of `s`, behind those of `had`.
pub open spec fn read_pairs(s: Seq<u8>, had: Seq<(Seq<char>, Seq<char>)>, n: int) -> Reading<
    Seq<(Seq<char>, Seq<char>)>,
>
    decreases n,
{
    if n <= 0 {
        (Ok(had), s)
    } else {
        let x = ttc::read_key_value(s);
        match x.0 {
            Ok(p) => read_pairs(x.1, had.push((p.0, p.1)), n - 1),
            Err(e) => (Err(e), x.1),
        }
    }
}

pub open spec fn read_login(s: Seq<u8>) -> Reading<LoginParts> {
    let head = read_fields(s, login_layout());
    match head.0 {
        Err(e) => (Err(e), head.1),
        Ok(h) => {
            let user = if h[1] > 0 {
                ttc::read_string(head.1)
            } else {
                (Ok(Seq::empty()), head.1)
            };
            match user.0 {
                Err(e) => (Err(e), user.1),
                Ok(u) => {
                    let pairs = read_pairs(user.1, Seq::empty(), h[4]);
                    match pairs.0 {
                        Ok(p) => (Ok(LoginParts { user: u, pairs: p }), pairs.1),
                        Err(e) => (Err(e), pairs.1),
                    }
                },
            }
        },
    }
}

/// Reads a login request.
pub fn read_auth(r: &mut ReadBuf) -> (x: Result<Login, ProtocolError>)
    ensures
        ttc::gave(read_login(old(r)@), ttc::outcome(x, |v: Login| v@), final(r)@),
{
    let layout: Vec<Field> = vec![
        Field::Byte,
        Field::Long,
        Field::Long,
        Field::Byte,
        Field::Long,
        Field::Byte,
        Field::Byte,
    ];
    assert(layout@ =~= login_layout());
    let h = match fields(r, &layout) {
        Ok(h) => h,
        Err(e) => {
            return Err(e);
        },
    };
    assert(numbers(h@)[1] == h@[1] && numbers(h@)[4] == h@[4]);
    let user = if h[1] > 0 {
        match r.string_with_length() {
            Ok(s) => s,
            Err(e) => {
                return Err(e);
            },
        }
    } else {
        let empty = String::new();
        assert(empty@ =~= Seq::<char>::empty());
        empty
    };
    match pairs_of(r, h[4]) {
        Ok(pairs) => Ok(Login { user, pairs }),
        Err(e) => Err(e),
    }
}

fn pairs_of(r: &mut ReadBuf, n: u32) -> (x: Result<Vec<(String, String)>, ProtocolError>)
    ensures
        ttc::gave(
            read_pairs(old(r)@, Seq::empty(), n as int),
            ttc::outcome(x, |v: Vec<(String, String)>| pair_texts(v@)),
            final(r)@,
        ),
{
    let ghost due = read_pairs(r@, Seq::empty(), n as int);
    let mut out: Vec<(String, String)> = Vec::new();
    assert(pair_texts(out@) =~= Seq::<(Seq<char>, Seq<char>)>::empty());
    let mut left: u32 = n;
    while left > 0
        invariant
            due == read_pairs(old(r)@, Seq::empty(), n as int),
            due == read_pairs(r@, pair_texts(out@), left as int),
        decreases left,
    {
        let ghost had = pair_texts(out@);
        match r.key_value() {
            Ok(p) => {
                out.push((p.0, p.1));
                assert(pair_texts(out@) =~= had.push((p.0@, p.1@)));
            },
            Err(e) => {
                return Err(e);
            },
        }
        left = left - 1;
    }
    Ok(out)
}

/// What the last of the first `n` pairs with a key holds.
pub open spec fn pair_value(
    pairs: Seq<(Seq<char>, Seq<char>)>,
    key: Seq<char>,
    n: int,
) -> Option<Seq<char>>
    decreases n,
{
    if n <= 0 || n > pairs.len() {
        None
    } else if pairs[n - 1].0 == key {
        Some(pairs[n - 1].1)
    } else {
        pair_value(pairs, key, n - 1)
    }
}

impl Login {
    /// What came under a key; the later pair where a key comes twice.
    pub fn get(&self, key: &str) -> (r: Option<&str>)
        ensures
            match r {
                Some(s) => pair_value(self@.pairs, key@, self@.pairs.len() as int) == Some(s@),
                None => pair_value(self@.pairs, key@, self@.pairs.len() as int) is None,
            },
    {
        let mut i: usize = self.pairs.len();
        let ghost p = self@.pairs;
        while i > 0
            invariant
                p == pair_texts(self.pairs@),
                p == self@.pairs,
                i <= self.pairs@.len(),
                pair_value(p, key@, p.len() as int) == pair_value(p, key@, i as int),
            decreases i,
        {
            assert(p[i - 1] == (self.pairs@[i - 1].0@, self.pairs@[i - 1].1@));
            if text::same(self.pairs[i - 1].0.as_str(), key) {
                return Some(self.pairs[i - 1].1.as_str());
            }
            i = i - 1;
        }
        None
    }
}

/// What `String::from_utf8_lossy` makes of bytes.
pub uninterp spec fn lossy(b: Seq<u8>) -> Seq<char>;

/// `String::from_utf8_lossy`: the text of bytes that are UTF-8; otherwise a text
/// in which every part that is not has been replaced.
#[verifier::external_body]
pub(crate) fn lossy_text(b: &[u8]) -> (r: String)
    ensures
        r@ == lossy(b@),
        valid_utf8(b@) ==> r@ == decode_utf8(b@),
{
    String::from_utf8_lossy(b).into_owned()
}

/// The types of `n` binds, behind those of `had`.
pub open spec fn read_types(s: Seq<u8>, had: Seq<u8>, n: int) -> Reading<Seq<u8>>
    decreases n,
{
    if n <= 0 {
        (Ok(had), s)
    } else {
        let x = read_type(s);
        match x.0 {
            Ok(t) => read_types(x.1, had.push(t), n - 1),
            Err(e) => (Err(e), x.1),
        }
    }
}

/// The numbers at the front of a bind's description: its type, flags, the
/// longest value, the number of elements, more flags, and the length of an
/// object's type.
pub open spec fn type_front() -> Seq<Field> {
    seq![
        Field::Byte,
        Field::Byte,
        Field::Byte,
        Field::Byte,
        Field::Long,
        Field::Long,
        Field::Long,
        Field::Long,
    ]
}

/// The numbers at its end: version, character set and its form, and two more.
pub open spec fn type_back() -> Seq<Field> {
    seq![Field::Short, Field::Short, Field::Byte, Field::Long, Field::Long]
}

/// The type in the description of one bind.
pub open spec fn read_type(s: Seq<u8>) -> Reading<u8> {
    let front = read_fields(s, type_front());
    match front.0 {
        Err(e) => (Err(e), front.1),
        Ok(h) => {
            let object = if h[7] > 0 {
                ttc::read_byte_string(front.1)
            } else {
                (Ok(None), front.1)
            };
            match object.0 {
                Err(e) => (Err(e), object.1),
                Ok(_) => {
                    let back = read_fields(object.1, type_back());
                    match back.0 {
                        Ok(_) => (Ok((h[0] % 256) as u8), back.1),
                        Err(e) => (Err(e), back.1),
                    }
                },
            }
        },
    }
}

fn bind_type(r: &mut ReadBuf) -> (x: Result<u8, ProtocolError>)
    ensures
        ttc::gave(read_type(old(r)@), ttc::outcome(x, |v: u8| v), final(r)@),
{
    let front: Vec<Field> = vec![
        Field::Byte,
        Field::Byte,
        Field::Byte,
        Field::Byte,
        Field::Long,
        Field::Long,
        Field::Long,
        Field::Long,
    ];
    let back: Vec<Field> = vec![Field::Short, Field::Short, Field::Byte, Field::Long, Field::Long];
    assert(front@ =~= type_front());
    assert(back@ =~= type_back());
    let h = match fields(r, &front) {
        Ok(h) => h,
        Err(e) => {
            return Err(e);
        },
    };
    assert(numbers(h@)[0] == h@[0] && numbers(h@)[7] == h@[7]);
    if h[7] > 0 {
        match r.bytes_with_length() {
            Ok(_) => {},
            Err(e) => {
                return Err(e);
            },
        }
    }
    match fields(r, &back) {
        Ok(_) => Ok((h[0] % 256) as u8),
        Err(e) => Err(e),
    }
}

/// Reads the descriptions of `n` binds: their types.
pub fn read_bind_metadata(r: &mut ReadBuf, n: u32) -> (x: Result<Vec<u8>, ProtocolError>)
    ensures
        ttc::gave(
            read_types(old(r)@, Seq::empty(), n as int),
            ttc::outcome(x, |v: Vec<u8>| v@),
            final(r)@,
        ),
{
    let ghost due = read_types(r@, Seq::empty(), n as int);
    let mut out: Vec<u8> = Vec::new();
    let mut left: u32 = n;
    while left > 0
        invariant
            due == read_types(old(r)@, Seq::empty(), n as int),
            due == read_types(r@, out@, left as int),
        decreases left,
    {
        match bind_type(r) {
            Ok(t) => {
                out.push(t);
            },
            Err(e) => {
                return Err(e);
            },
        }
        left = left - 1;
    }
    Ok(out)
}

/// A date that came in UTC, in the session's time zone.
pub open spec fn local_date(b: Seq<u8>, tz: int) -> Result<Moment, Seq<char>> {
    match message::date_of(b) {
        Err(e) => Err(e),
        Ok(m) => match datetime::shifted(m, tz * 60) {
            Some(d) => Ok(d),
            None => Err("invalid date value"@),
        },
    }
}

/// What the bytes of a bind of a type stand for, in a session whose time zone is
/// `tz` minutes ahead of UTC.
pub open spec fn bound(t: u8, bytes: Option<Seq<u8>>, tz: int) -> Result<Datum, Seq<char>> {
    match bytes {
        None => Ok(Datum::Null),
        Some(b) => if t == 1 || t == 96 {
            Ok(value::varchar(lossy(b)))
        } else if t == 2 || t == 3 {
            match number::number_of(oranum::decoded(b)) {
                Some(n) => Ok(Datum::Number(n)),
                None => Ok(Datum::Null),
            }
        } else if t == 12 || t == 180 {
            match message::date_of(b) {
                Ok(m) => if t == 12 {
                    Ok(Datum::Date(m))
                } else {
                    Ok(Datum::Timestamp(m))
                },
                Err(e) => Err(e),
            }
        } else if t == 231 || t == 181 {
            match local_date(b, tz) {
                Ok(m) => if b.len() <= 7 {
                    Ok(Datum::Date(m))
                } else {
                    Ok(Datum::Timestamp(m))
                },
                Err(e) => Err(e),
            }
        } else {
            Err("binding type "@ + text::decimal(t as nat) + " is not supported yet"@)
        },
    }
}

fn bound_value(t: u8, bytes: Option<Vec<u8>>, tz: i32) -> (x: Result<Value, ProtocolError>)
    ensures
        ttc::outcome(x, |v: Value| v@) == bound(t, ttc::view_of(bytes), tz as int),
{
    let b = match bytes {
        None => {
            return Ok(Value::Null);
        },
        Some(b) => b,
    };
    if t == 1 || t == 96 {
        Ok(Value::varchar(lossy_text(&b).as_str()))
    } else if t == 2 || t == 3 {
        match Value::parse_number(oranum::decode(&b).as_str()) {
            Some(v) => Ok(v),
            None => Ok(Value::Null),
        }
    } else if t == 12 || t == 180 {
        match decode_date(&b) {
            Ok(d) => if t == 12 {
                Ok(Value::Date(d))
            } else {
                Ok(Value::Timestamp(d))
            },
            Err(e) => Err(e),
        }
    } else if t == 231 || t == 181 {
        match decode_date(&b) {
            Ok(d) => match d.shift(tz as i64 * 60) {
                Some(d) => if b.len() <= 7 {
                    Ok(Value::Date(d))
                } else {
                    Ok(Value::Timestamp(d))
                },
                None => Err(invalid("invalid date value".to_owned())),
            },
            Err(e) => Err(e),
        }
    } else {
        let mut m = "binding type ".to_owned();
        text::push_decimal(&mut m, t as u64);
        m.append(" is not supported yet");
        Err(invalid(m))
    }
}

/// The values of the binds from the `i`-th on, behind those of `had`.
pub open spec fn read_values(s: Seq<u8>, types: Seq<u8>, i: int, tz: int, had: Seq<Datum>) -> Reading<
    Seq<Datum>,
>
    decreases types.len() - i,
{
    if i < 0 || i >= types.len() {
        (Ok(had), s)
    } else {
        let x = ttc::read_byte_string(s);
        match x.0 {
            Err(e) => (Err(e), x.1),
            Ok(b) => match bound(types[i], b, tz) {
                Ok(v) => read_values(x.1, types, i + 1, tz, had.push(v)),
                Err(e) => (Err(e), x.1),
            },
        }
    }
}

/// One row of bind values.
pub open spec fn read_row(s: Seq<u8>, types: Seq<u8>, tz: int) -> Reading<Seq<Datum>> {
    let x = ttc::read_u8(s);
    match x.0 {
        Err(e) => (Err(e), x.1),
        Ok(m) => if m != MSG_ROW_DATA {
            (Err("expected bind row"@), x.1)
        } else {
            read_values(x.1, types, 0, tz, Seq::empty())
        },
    }
}

/// Reads one row of bind values. `tz_offset_minutes` is the session time zone, used
/// to turn time-zone-aware binds (UTC on the wire) into local date/times.
pub fn read_bind_row(r: &mut ReadBuf, types: &[u8], tz_offset_minutes: i32) -> (x: Result<
    Vec<Value>,
    ProtocolError,
>)
    ensures
        ttc::gave(
            read_row(old(r)@, types@, tz_offset_minutes as int),
            ttc::outcome(x, |v: Vec<Value>| functions::views(v@)),
            final(r)@,
        ),
{
    let ghost tz = tz_offset_minutes as int;
    match r.u8() {
        Ok(m) => if m != MSG_ROW_DATA {
            return Err(invalid("expected bind row".to_owned()));
        },
        Err(e) => {
            return Err(e);
        },
    }
    let ghost due = read_values(r@, types@, 0, tz, Seq::empty());
    assert(due == read_row(old(r)@, types@, tz));
    let mut out: Vec<Value> = Vec::new();
    assert(functions::views(out@) =~= Seq::<Datum>::empty());
    for i in 0..types.len()
        invariant
            tz == tz_offset_minutes,
            due == read_row(old(r)@, types@, tz),
            due == read_values(r@, types@, i as int, tz, functions::views(out@)),
    {
        let ghost had = functions::views(out@);
        let b = match r.bytes_with_length() {
            Ok(b) => b,
            Err(e) => {
                return Err(e);
            },
        };
        match bound_value(types[i], b, tz_offset_minutes) {
            Ok(v) => {
                out.push(v);
                assert(functions::views(out@) =~= had.push(v@));
            },
            Err(e) => {
                return Err(e);
            },
        }
    }
    Ok(out)
}

/// The rows of bind values up to the end of a request, behind those of `had`.
pub open spec fn read_rows(s: Seq<u8>, types: Seq<u8>, tz: int, had: Seq<Seq<Datum>>) -> Reading<
    Seq<Seq<Datum>>,
>
    decreases s.len(),
{
    if s.len() == 0 {
        (Ok(had), s)
    } else {
        let x = read_row(s, types, tz);
        match x.0 {
            Err(e) => (Err(e), x.1),
            Ok(row) => if x.1.len() < s.len() {
                read_rows(x.1, types, tz, had.push(row))
            } else {
                (Ok(had), s)
            },
        }
    }
}

/// A byte string takes bytes from the front.
proof fn string_shrinks(s: Seq<u8>)
    ensures
        ttc::read_byte_string(s).1.len() <= s.len(),
{
    if s.len() > 0 {
        chunks_shrink(s.skip(1), Seq::empty());
    }
}

proof fn chunks_shrink(s: Seq<u8>, acc: Seq<u8>)
    ensures
        ttc::read_chunks(s, acc).1.len() <= s.len(),
    decreases s.len(),
{
    let x = ttc::read_ub(s, 4);
    match x.0 {
        Ok(n) => {
            let b = ttc::read_bytes(x.1, n);
            if b.0 is Ok && b.1.len() < s.len() {
                chunks_shrink(b.1, acc + b.0->Ok_0);
            }
        },
        Err(_) => {},
    }
}

proof fn values_shrink(s: Seq<u8>, types: Seq<u8>, i: int, tz: int, had: Seq<Datum>)
    ensures
        read_values(s, types, i, tz, had).1.len() <= s.len(),
    decreases types.len() - i,
{
    if 0 <= i < types.len() {
        string_shrinks(s);
        let x = ttc::read_byte_string(s);
        match x.0 {
            Ok(b) => match bound(types[i], b, tz) {
                Ok(v) => {
                    values_shrink(x.1, types, i + 1, tz, had.push(v));
                },
                Err(_) => {},
            },
            Err(_) => {},
        }
    }
}

/// A row that can be read takes at least one byte.
proof fn row_shrinks(s: Seq<u8>, types: Seq<u8>, tz: int)
    ensures
        read_row(s, types, tz).0 is Ok ==> read_row(s, types, tz).1.len() < s.len(),
{
    let x = ttc::read_u8(s);
    if x.0 is Ok {
        values_shrink(x.1, types, 0, tz, Seq::empty());
    }
}

/// Reads rows of bind values up to the end of a request.
pub fn read_bind_rows(r: &mut ReadBuf, types: &[u8], tz_offset_minutes: i32) -> (x: Result<
    Vec<Vec<Value>>,
    ProtocolError,
>)
    ensures
        ttc::gave(
            read_rows(old(r)@, types@, tz_offset_minutes as int, Seq::empty()),
            ttc::outcome(x, |v: Vec<Vec<Value>>| vars::value_rows(v@)),
            final(r)@,
        ),
{
    let ghost tz = tz_offset_minutes as int;
    let ghost due = read_rows(r@, types@, tz, Seq::empty());
    let mut out: Vec<Vec<Value>> = Vec::new();
    assert(vars::value_rows(out@) =~= Seq::<Seq<Datum>>::empty());
    while r.remaining() > 0
        invariant
            tz == tz_offset_minutes,
            due == read_rows(old(r)@, types@, tz, Seq::empty()),
            due == read_rows(r@, types@, tz, vars::value_rows(out@)),
        decreases r@.len(),
    {
        let ghost had = vars::value_rows(out@);
        proof {
            row_shrinks(r@, types@, tz);
        }
        match read_bind_row(r, types, tz_offset_minutes) {
            Ok(row) => {
                out.push(row);
                assert(vars::value_rows(out@) =~= had.push(functions::views(row@)));
            },
            Err(e) => {
                return Err(e);
            },
        }
    }
    Ok(out)
}

/// The numbers at the front of an execute request. Among those that are read and
/// not used are pointers, the statement's length and identifiers.
pub open spec fn execute_layout() -> Seq<Field> {
    seq![
        Field::Long,
        Field::Long,
        Field::Byte,
        Field::Long,
        Field::Byte,
        Field::Long,
        Field::Byte,
        Field::Byte,
        Field::Byte,
        Field::Long,
        Field::Long,
        Field::Byte,
        Field::Long,
    ] + seq![
        Field::Byte,
        Field::Byte,
        Field::Byte,
        Field::Byte,
        Field::Byte,
        Field::Byte,
        Field::Long,
    ] + seq![
        Field::Long,
        Field::Byte,
        Field::Byte,
        Field::Byte,
        Field::Long,
        Field::Byte,
        Field::Long,
        Field::Long,
        Field::Byte,
        Field::Long,
        Field::Byte,
        Field::Byte,
        Field::Long,
        Field::Byte,
        Field::Long,
        Field::Byte,
        Field::Byte,
        Field::Long,
    ]
}

/// The thirteen numbers behind the statement's text.
pub open spec fn count_layout() -> Seq<Field> {
    Seq::new(13, |i: int| Field::Long)
}

/// A request to execute a statement.
pub struct ExecuteRequest {
    /// The cursor whose statement runs where the request holds none.
    pub cursor_id: u32,
    pub sql: Option<String>,
    pub bind_types: Vec<u8>,
    pub bind_rows: Vec<Vec<Value>>,
    /// How many times a statement without binds runs.
    pub executions: u32,
    /// How many rows are wanted at once.
    pub fetch: u32,
    pub commit: bool,
}

/// A request in terms of its contents.
pub struct ExecuteParts {
    pub cursor_id: int,
    pub sql: Option<Seq<char>>,
    pub bind_types: Seq<u8>,
    pub bind_rows: Seq<Seq<Datum>>,
    pub executions: int,
    pub fetch: int,
    pub commit: bool,
}

impl View for ExecuteRequest {
    type V = ExecuteParts;

    open spec fn view(&self) -> ExecuteParts {
        ExecuteParts {
            cursor_id: self.cursor_id as int,
            sql: match self.sql {
                Some(s) => Some(s@),
                None => None,
            },
            bind_types: self.bind_types@,
            bind_rows: vars::value_rows(self.bind_rows@),
            executions: self.executions as int,
            fetch: self.fetch as int,
            commit: self.commit,
        }
    }
}

/// Whether one of the bits of a number is set.
pub open spec fn has_bit(options: int, bit: u32) -> bool {
    (options / bit as int) % 2 == 1
}

/// The statement that a request holds, when it says that it holds one.
pub open spec fn read_statement(s: Seq<u8>, has_sql: bool) -> Reading<Option<Seq<char>>> {
    if !has_sql {
        (Ok(None), s)
    } else {
        let x = ttc::read_byte_string(s);
        match x.0 {
            Err(e) => (Err(e), x.1),
            Ok(None) => (Ok(Some(Seq::empty())), x.1),
            Ok(Some(b)) => if valid_utf8(b) {
                (Ok(Some(decode_utf8(b))), x.1)
            } else {
                (Err("SQL is not UTF-8"@), x.1)
            },
        }
    }
}

/// The types and the rows of `n` binds.
pub open spec fn read_binds(s: Seq<u8>, n: int, tz: int) -> Reading<(Seq<u8>, Seq<Seq<Datum>>)> {
    if n <= 0 {
        (Ok((Seq::empty(), Seq::empty())), s)
    } else {
        let types = read_types(s, Seq::empty(), n);
        match types.0 {
            Err(e) => (Err(e), types.1),
            Ok(t) => {
                let rows = read_rows(types.1, t, tz, Seq::empty());
                match rows.0 {
                    Ok(v) => (Ok((t, v)), rows.1),
                    Err(e) => (Err(e), rows.1),
                }
            },
        }
    }
}

pub open spec fn read_execute_parts(s: Seq<u8>, tz: int) -> Reading<ExecuteParts> {
    let head = read_fields(s, execute_layout());
    match head.0 {
        Err(e) => (Err(e), head.1),
        Ok(h) => {
            let sql = read_statement(head.1, h[2] == 1);
            match sql.0 {
                Err(e) => (Err(e), sql.1),
                Ok(statement) => {
                    let counts = read_fields(sql.1, count_layout());
                    match counts.0 {
                        Err(e) => (Err(e), counts.1),
                        Ok(c) => read_execute_rest(h, statement, c, counts.1, tz),
                    }
                },
            }
        },
    }
}

/// What follows the numbers `h` in front of the statement and those behind it,
/// `c`: the second of these is how many times a statement that is not a query
/// runs, and the eighth marks a query.
pub open spec fn read_execute_rest(
    h: Seq<int>,
    sql: Option<Seq<char>>,
    c: Seq<int>,
    s: Seq<u8>,
    tz: int,
) -> Reading<ExecuteParts> {
    if has_bit(h[0], EXEC_DEFINE) && h[19] > 0 {
        (Err("column defines are not supported yet"@), s)
    } else {
        let binds = read_binds(
            s,
            if has_bit(h[0], EXEC_BIND) {
                h[12]
            } else {
                0
            },
            tz,
        );
        match binds.0 {
            Err(e) => (Err(e), binds.1),
            Ok((types, rows)) => (
                Ok(
                    ExecuteParts {
                        cursor_id: h[1],
                        sql,
                        bind_types: types,
                        bind_rows: rows,
                        executions: if c[7] == 1 {
                            1
                        } else {
                            c[1]
                        },
                        fetch: if has_bit(h[0], EXEC_FETCH) {
                            h[9]
                        } else {
                            0
                        },
                        commit: has_bit(h[0], EXEC_COMMIT),
                    },
                ),
                binds.1,
            ),
        }
    }
}

fn statement_text(r: &mut ReadBuf, has_sql: bool) -> (x: Result<Option<String>, ProtocolError>)
    ensures
        ttc::gave(
            read_statement(old(r)@, has_sql),
            ttc::outcome(
                x,
                |v: Option<String>|
                    match v {
                        Some(s) => Some(s@),
                        None => None,
                    },
            ),
            final(r)@,
        ),
{
    if !has_sql {
        return Ok(None);
    }
    match r.bytes_with_length() {
        Err(e) => Err(e),
        Ok(None) => {
            let empty = String::new();
            assert(empty@ =~= Seq::<char>::empty());
            Ok(Some(empty))
        },
        Ok(Some(b)) => match text::utf8_text(b) {
            Some(s) => Ok(Some(s)),
            None => Err(invalid("SQL is not UTF-8".to_owned())),
        },
    }
}

fn binds_of(r: &mut ReadBuf, n: u32, tz: i32) -> (x: Result<(Vec<u8>, Vec<Vec<Value>>), ProtocolError>)
    ensures
        ttc::gave(
            read_binds(old(r)@, n as int, tz as int),
            ttc::outcome(x, |v: (Vec<u8>, Vec<Vec<Value>>)| (v.0@, vars::value_rows(v.1@))),
            final(r)@,
        ),
{
    if n == 0 {
        let types: Vec<u8> = Vec::new();
        let rows: Vec<Vec<Value>> = Vec::new();
        assert(types@ =~= Seq::<u8>::empty());
        assert(vars::value_rows(rows@) =~= Seq::<Seq<Datum>>::empty());
        return Ok((types, rows));
    }
    let types = match read_bind_metadata(r, n) {
        Ok(t) => t,
        Err(e) => {
            return Err(e);
        },
    };
    match read_bind_rows(r, &types, tz) {
        Ok(rows) => Ok((types, rows)),
        Err(e) => Err(e),
    }
}

fn execute_fields() -> (v: Vec<Field>)
    ensures
        v@ == execute_layout(),
{
    let b = Field::Byte;
    let l = Field::Long;
    let v: Vec<Field> = vec![
        l, l, b, l, b, l, b, b, b, l, l, b, l, b, b, b, b, b, b, l, l, b, b, b, l, b, l, l, b, l, b,
        b, l, b, l, b, b, l,
    ];
    assert(v@ =~= execute_layout());
    v
}

fn count_fields() -> (v: Vec<Field>)
    ensures
        v@ == count_layout(),
{
    let l = Field::Long;
    let v: Vec<Field> = vec![l, l, l, l, l, l, l, l, l, l, l, l, l];
    assert(v@ =~= count_layout());
    v
}

/// Reads an execute request, in a session whose time zone is `tz` minutes ahead
/// of UTC.
pub fn read_execute(r: &mut ReadBuf, tz: i32) -> (x: Result<ExecuteRequest, ProtocolError>)
    ensures
        ttc::gave(
            read_execute_parts(old(r)@, tz as int),
            ttc::outcome(x, |v: ExecuteRequest| v@),
            final(r)@,
        ),
{
    let h = match fields(r, &execute_fields()) {
        Ok(h) => h,
        Err(e) => {
            return Err(e);
        },
    };
    assert(execute_layout().len() == 38);
    assert(numbers(h@)[0] == h@[0] && numbers(h@)[1] == h@[1] && numbers(h@)[2] == h@[2]
        && numbers(h@)[9] == h@[9] && numbers(h@)[12] == h@[12] && numbers(h@)[19] == h@[19]);
    let sql = match statement_text(r, h[2] == 1) {
        Ok(s) => s,
        Err(e) => {
            return Err(e);
        },
    };
    let c = match fields(r, &count_fields()) {
        Ok(c) => c,
        Err(e) => {
            return Err(e);
        },
    };
    assert(numbers(c@)[1] == c@[1] && numbers(c@)[7] == c@[7]);
    let options: u32 = h[0];
    if (options / EXEC_DEFINE) % 2 == 1 && h[19] > 0 {
        return Err(invalid("column defines are not supported yet".to_owned()));
    }
    let num_binds: u32 = if (options / EXEC_BIND) % 2 == 1 {
        h[12]
    } else {
        0
    };
    match binds_of(r, num_binds, tz) {
        Err(e) => Err(e),
        Ok((bind_types, bind_rows)) => Ok(
            ExecuteRequest {
                cursor_id: h[1],
                sql,
                bind_types,
                bind_rows,
                executions: if c[7] == 1 {
                    1
                } else {
                    c[1]
                },
                fetch: if (options / EXEC_FETCH) % 2 == 1 {
                    h[9]
                } else {
                    0
                },
                commit: (options / EXEC_COMMIT) % 2 == 1,
            },
        ),
    }
}

} // verus!
