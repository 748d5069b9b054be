//! The messages of a session: what clients send, and what they are answered.

use vstd::prelude::*;
use vstd::string::*;
use vstd::utf8::*;

use crate::datetime;
use crate::datetime::{DateTime, Moment};
use crate::dml;
use crate::dml::Column;
use crate::error;
use crate::error::{Failure, OraError};
use crate::number;
use crate::server::oranum;
use crate::server::tns::{invalid, ProtocolError};
use crate::server::ttc;
use crate::server::ttc::WriteBuf;
use crate::text;
use crate::value;
use crate::value::{Datum, SqlType, Value};

verus! {

pub const MSG_PROTOCOL: u8 = 1;

pub const MSG_DATA_TYPES: u8 = 2;

pub const MSG_FUNCTION: u8 = 3;

pub const MSG_ERROR: u8 = 4;

pub const MSG_ROW_HEADER: u8 = 6;

pub const MSG_ROW_DATA: u8 = 7;

pub const MSG_PARAMETER: u8 = 8;

pub const MSG_STATUS: u8 = 9;

pub const MSG_DESCRIBE_INFO: u8 = 16;

pub const MSG_PIGGYBACK: u8 = 17;

pub const TYPE_VARCHAR: u8 = 1;

pub const TYPE_NUMBER: u8 = 2;

pub const TYPE_BINARY_INTEGER: u8 = 3;

pub const TYPE_DATE: u8 = 12;

pub const TYPE_CHAR: u8 = 96;

pub const TYPE_TIMESTAMP: u8 = 180;

pub const TYPE_TIMESTAMP_TZ: u8 = 181;

pub const TYPE_TIMESTAMP_LTZ: u8 = 231;

pub const CHARSET_UTF8: u16 = 873;

pub const CHARSET_UTF16: u16 = 2000;

/// TTC field version we speak: 19.1. It decides which optional fields appear in messages.
pub const TTC_FIELD_VERSION: u8 = 12;

pub open spec fn zeros(n: int) -> Seq<u8> {
    Seq::new(n as nat, |i: int| 0u8)
}

/// Fields that are zero, each of one byte.
pub(crate) fn write_zeros(out: &mut WriteBuf, n: usize)
    ensures
        final(out)@ == old(out)@ + zeros(n as int),
{
    let ghost start = out@;
    assert(start + zeros(0) =~= start);
    for i in 0..n
        invariant
            out@ == start + zeros(i as int),
    {
        out.u8(0);
        assert(out@ =~= start + zeros(i + 1));
    }
}

// ---- dates ----

pub open spec fn bad_date() -> Seq<char> {
    "invalid date value"@
}

/// The moment that 7 bytes of a DATE or 11 of a TIMESTAMP stand for. Time bytes are stored plus
/// one, so zero is never valid.
pub open spec fn date_of(b: Seq<u8>) -> Result<Moment, Seq<char>> {
    if b.len() < 7 {
        Err("short date value"@)
    } else if b[4] == 0 || b[5] == 0 || b[6] == 0 {
        Err(bad_date())
    } else {
        let m = datetime::moment(
            (b[0] - 100) * 100 + b[1] - 100,
            b[2] as int,
            b[3] as int,
            b[4] - 1,
            b[5] - 1,
            b[6] - 1,
            if b.len() >= 11 {
                b[7] * 16777216 + b[8] * 65536 + b[9] * 256 + b[10]
            } else {
                0
            },
        );
        if datetime::valid(m) {
            Ok(m)
        } else {
            Err(bad_date())
        }
    }
}

/// Decodes Oracle's 7-byte DATE or 11-byte TIMESTAMP wire format.
pub fn decode_date(b: &[u8]) -> (r: Result<DateTime, ProtocolError>)
    ensures
        match r {
            Ok(d) => date_of(b@) == Ok::<Moment, Seq<char>>(d@),
            Err(e) => date_of(b@) == Err::<Moment, Seq<char>>(e@),
        },
{
    if b.len() < 7 {
        return Err(invalid("short date value".to_owned()));
    }
    if b[4] == 0 || b[5] == 0 || b[6] == 0 {
        return Err(invalid("invalid date value".to_owned()));
    }
    let year: i32 = (b[0] as i32 - 100) * 100 + b[1] as i32 - 100;
    let nanos: u32 = if b.len() >= 11 {
        b[7] as u32 * 16777216 + b[8] as u32 * 65536 + b[9] as u32 * 256 + b[10] as u32
    } else {
        0
    };
    match DateTime::new(
        year,
        b[2] as u32,
        b[3] as u32,
        b[4] as u32 - 1,
        b[5] as u32 - 1,
        b[6] as u32 - 1,
        nanos,
    ) {
        Some(d) => Ok(d),
        None => Err(invalid("invalid date value".to_owned())),
    }
}

/// The bytes of a moment: a DATE, or a TIMESTAMP when it has fractional seconds and they are
/// wanted. A year is written by its century and the rest; years that do not fit are cut short.
pub open spec fn date_bytes(m: Moment, with_fraction: bool) -> Seq<u8> {
    let c = if m.year >= 0 {
        m.year / 100
    } else {
        -((-m.year) / 100)
    };
    let front = seq![
        ((c + 100) % 256) as u8,
        (m.year - c * 100 + 100) as u8,
        m.month as u8,
        m.day as u8,
        (m.hour + 1) as u8,
        (m.minute + 1) as u8,
        (m.second + 1) as u8,
    ];
    if with_fraction && m.nano != 0 {
        front + seq![
            (m.nano / 16777216) as u8,
            (m.nano / 65536 % 256) as u8,
            (m.nano / 256 % 256) as u8,
            (m.nano % 256) as u8,
        ]
    } else {
        front
    }
}

/// Encodes a date/time as a 7-byte DATE, or an 11-byte TIMESTAMP when it has fractional seconds.
pub fn encode_date(d: &DateTime, with_fraction: bool) -> (r: Vec<u8>)
    ensures
        r@ == date_bytes(d@, with_fraction),
{
    d.check();
    let year: i32 = d.year();
    let c: i32 = if year >= 0 {
        year / 100
    } else {
        -((-year) / 100)
    };
    let mut b: Vec<u8> = Vec::new();
    let century: i32 = (c + 100) % 256;
    b.push(
        (if century < 0 {
            century + 256
        } else {
            century
        }) as u8,
    );
    b.push((year - c * 100 + 100) as u8);
    b.push(d.month() as u8);
    b.push(d.day() as u8);
    b.push((d.hour() + 1) as u8);
    b.push((d.minute() + 1) as u8);
    b.push((d.second() + 1) as u8);
    if with_fraction && d.nanosecond() != 0 {
        let n: u32 = d.nanosecond();
        b.push((n / 16777216) as u8);
        b.push((n / 65536 % 256) as u8);
        b.push((n / 256 % 256) as u8);
        b.push((n % 256) as u8);
    }
    assert(b@ =~= date_bytes(d@, with_fraction));
    b
}

/// A moment of the years that Oracle has comes back from its bytes.
pub proof fn date_round_trip(m: Moment)
    requires
        datetime::valid(m),
        -4712 <= m.year <= 9999,
    ensures
        date_of(date_bytes(m, true)) == Ok::<Moment, Seq<char>>(m),
{
    let b = date_bytes(m, true);
    let c = if m.year >= 0 {
        m.year / 100
    } else {
        -((-m.year) / 100)
    };
    assert(-48 <= c <= 99);
    assert((c + 100) % 256 == c + 100);
    assert(-99 <= m.year - c * 100 <= 99);
    if m.nano != 0 {
        let n = m.nano;
        assert(n == n / 16777216 * 16777216 + n / 65536 % 256 * 65536 + n / 256 % 256 * 256 + n
            % 256) by (nonlinear_arith)
            requires
                0 <= n,
        ;
        assert(b.len() == 11);
    } else {
        assert(b.len() == 7);
    }
}

// ---- end of call ----

/// The end-of-call status.
pub open spec fn status_bytes(call_status: int) -> Seq<u8> {
    seq![MSG_STATUS] + ttc::ub_bytes(call_status as nat) + zeros(1)
}

pub fn write_status(out: &mut WriteBuf, call_status: u32)
    ensures
        final(out)@ == old(out)@ + status_bytes(call_status as int),
{
    out.u8(MSG_STATUS);
    out.ub4(call_status);
    write_zeros(out, 1);
    assert(out@ =~= old(out)@ + status_bytes(call_status as int));
}

/// An error as the client shows it, with a line end.
pub open spec fn error_text(f: Failure) -> Seq<char> {
    "ORA-"@ + text::zero_filled(text::decimal(f.code as nat), 5) + ": "@ + f.message + seq!['\n']
}

/// The end-of-call ERROR message; without an error it means success.
pub open spec fn error_bytes(call_status: int, cursor_id: int, row_count: int, e: Option<Failure>) -> Seq<
    u8,
> {
    let code = match e {
        Some(f) => f.code,
        None => 0,
    };
    let short = if code < 65535 {
        code
    } else {
        65535
    };
    seq![MSG_ERROR] + ttc::ub_bytes(call_status as nat) + zeros(2) + ttc::ub_bytes(short as nat)
        + zeros(2) + ttc::ub_bytes(cursor_id as nat) + zeros(21) + ttc::ub_bytes(code as nat)
        + ttc::ub_bytes(row_count as nat) + match e {
        Some(f) => ttc::byte_string_bytes(encode_utf8(error_text(f))),
        None => Seq::empty(),
    }
}

pub open spec fn opt_failure(e: Option<&OraError>) -> Option<Failure> {
    match e {
        Some(e) => Some(e@),
        None => None,
    }
}

/// Writes the end-of-call ERROR message. `error: None` means success.
pub fn write_error(
    out: &mut WriteBuf,
    call_status: u32,
    cursor_id: u16,
    row_count: u64,
    error: Option<&OraError>,
)
    ensures
        final(out)@ == old(out)@ + error_bytes(
            call_status as int,
            cursor_id as int,
            row_count as int,
            opt_failure(error),
        ),
{
    let code: u32 = match error {
        Some(e) => e.code,
        None => 0,
    };
    out.u8(MSG_ERROR);
    out.ub4(call_status);
    write_zeros(out, 2);
    out.ub2(
        if code < 65535 {
            code as u16
        } else {
            65535
        },
    );
    write_zeros(out, 2);
    out.ub2(cursor_id);
    write_zeros(out, 21);
    out.ub4(code);
    out.ub8(row_count);
    match error {
        Some(e) => {
            let mut t = e.to_string();
            t.push('\n');
            assert(t@ =~= error_text(e@));
            out.bytes_with_length(t.as_str().as_bytes());
        },
        None => {},
    }
    assert(out@ =~= old(out)@ + error_bytes(
        call_status as int,
        cursor_id as int,
        row_count as int,
        opt_failure(error),
    ));
}

// ---- protocol ----

pub open spec fn protocol_bytes() -> Seq<u8> {
    seq![MSG_PROTOCOL, 6u8, 0u8] + encode_utf8("mock-oracle"@) + zeros(1) + seq![
        105u8,
        3u8,
        1u8,
        0u8,
        0u8,
        0u8,
        11u8,
    ] + zeros(9) + seq![7u8, 208u8] + ttc::byte_string_bytes(
        zeros(7) + seq![TTC_FIELD_VERSION] + zeros(45),
    ) + ttc::byte_string_bytes(zeros(6) + seq![4u8])
}

fn zero_vec(n: usize) -> (v: Vec<u8>)
    ensures
        v@ == zeros(n as int),
{
    let mut v: Vec<u8> = Vec::new();
    for i in 0..n
        invariant
            v@ == zeros(i as int),
    {
        v.push(0);
        assert(v@ =~= zeros(i + 1));
    }
    v
}

/// The server's side of the protocol negotiation: its name, the character sets (UTF-8, and
/// UTF-16 as the national one), and its capabilities.
pub fn write_protocol(out: &mut WriteBuf)
    ensures
        final(out)@ == old(out)@ + protocol_bytes(),
{
    out.u8(MSG_PROTOCOL);
    out.u8(6);
    out.u8(0);
    out.raw("mock-oracle".as_bytes());
    write_zeros(out, 1);
    out.u8(105);
    out.u8(3);
    out.u8(1);
    out.u8(0);
    out.u8(0);
    out.u8(0);
    out.u8(11);
    write_zeros(out, 9);
    out.u8(7);
    out.u8(208);
    let mut compile = zero_vec(7);
    compile.push(TTC_FIELD_VERSION);
    let mut more = zero_vec(45);
    compile.append(&mut more);
    assert(compile@ =~= zeros(7) + seq![TTC_FIELD_VERSION] + zeros(45));
    out.bytes_with_length(&compile);
    let mut runtime = zero_vec(6);
    runtime.push(4);
    assert(runtime@ =~= zeros(6) + seq![4u8]);
    out.bytes_with_length(&runtime);
    assert(out@ =~= old(out)@ + protocol_bytes());
}

// ---- rows ----

pub open spec fn size_of(t: SqlType) -> int {
    match t {
        SqlType::Number { .. } => 22,
        SqlType::Varchar2(n) => n as int,
        SqlType::Char(n) => n as int,
        SqlType::Date => 7,
        SqlType::Timestamp(_) => 11,
    }
}

pub fn max_size(t: SqlType) -> (n: u32)
    ensures
        n == size_of(t),
{
    match t {
        SqlType::Number { .. } => 22,
        SqlType::Varchar2(n) => n,
        SqlType::Char(n) => n,
        SqlType::Date => 7,
        SqlType::Timestamp(_) => 11,
    }
}

/// A value of a row. A zero-length column carries no bytes at all; the client knows it is NULL.
pub open spec fn value_bytes(v: Datum, t: SqlType) -> Seq<u8> {
    if t == SqlType::Varchar2(0) {
        Seq::empty()
    } else if v is Null {
        zeros(1)
    } else if t is Number {
        match v {
            Datum::Number(n) => match oranum::encoded(number::scientific(n)) {
                Some(b) => ttc::byte_string_bytes(b),
                None => zeros(1),
            },
            _ => zeros(1),
        }
    } else if t is Date || t is Timestamp {
        match v {
            Datum::Date(m) => ttc::byte_string_bytes(date_bytes(m, t is Timestamp)),
            Datum::Timestamp(m) => ttc::byte_string_bytes(date_bytes(m, t is Timestamp)),
            _ => ttc::byte_string_bytes(encode_utf8(value::default_text(v))),
        }
    } else {
        ttc::byte_string_bytes(encode_utf8(value::default_text(v)))
    }
}

pub fn write_value(out: &mut WriteBuf, v: &Value, t: SqlType)
    ensures
        final(out)@ == old(out)@ + value_bytes(v@, t),
{
    let ghost start = out@;
    if let SqlType::Varchar2(0) = t {
        assert(out@ =~= start + value_bytes(v@, t));
        return;
    }
    if v.is_null() {
        write_zeros(out, 1);
        return;
    }
    match t {
        SqlType::Number { .. } => match oranum::encode_value(v) {
            Some(b) => out.bytes_with_length(&b),
            None => write_zeros(out, 1),
        },
        SqlType::Date => match v {
            Value::Date(d) => out.bytes_with_length(&encode_date(d, false)),
            Value::Timestamp(d) => out.bytes_with_length(&encode_date(d, false)),
            _ => out.bytes_with_length(v.to_string().as_str().as_bytes()),
        },
        SqlType::Timestamp(_) => match v {
            Value::Date(d) => out.bytes_with_length(&encode_date(d, true)),
            Value::Timestamp(d) => out.bytes_with_length(&encode_date(d, true)),
            _ => out.bytes_with_length(v.to_string().as_str().as_bytes()),
        },
        _ => out.bytes_with_length(v.to_string().as_str().as_bytes()),
    }
}

/// How a column is described: its wire type, precision, scale, character set and form, and its
/// length in characters.
pub open spec fn column_kind(t: SqlType) -> (u8, u8, u8, int, u8, int) {
    match t {
        SqlType::Number { precision, scale } => (
            TYPE_NUMBER,
            precision,
            (scale as int % 256) as u8,
            0,
            0,
            0,
        ),
        SqlType::Varchar2(n) => (TYPE_VARCHAR, 0, 0, CHARSET_UTF8 as int, 1, n as int),
        SqlType::Char(n) => (TYPE_CHAR, 0, 0, CHARSET_UTF8 as int, 1, n as int),
        SqlType::Date => (TYPE_DATE, 0, 0, 0, 0, 0),
        SqlType::Timestamp(p) => (TYPE_TIMESTAMP, 0, p, 0, 0, 0),
    }
}

fn kind_of(t: SqlType) -> (r: (u8, u8, u8, u16, u8, u32))
    ensures
        (r.0, r.1, r.2, r.3 as int, r.4, r.5 as int) == column_kind(t),
{
    match t {
        SqlType::Number { precision, scale } => {
            let s: u8 = if scale < 0 {
                (scale as i32 + 256) as u8
            } else {
                scale as u8
            };
            (TYPE_NUMBER, precision, s, 0, 0, 0)
        },
        SqlType::Varchar2(n) => (TYPE_VARCHAR, 0, 0, CHARSET_UTF8, 1, n),
        SqlType::Char(n) => (TYPE_CHAR, 0, 0, CHARSET_UTF8, 1, n),
        SqlType::Date => (TYPE_DATE, 0, 0, 0, 0, 0),
        SqlType::Timestamp(p) => (TYPE_TIMESTAMP, 0, p, 0, 0, 0),
    }
}

/// The description of the column at a position, counted from zero.
pub open spec fn column_bytes(c: (Seq<char>, SqlType), i: int) -> Seq<u8> {
    let k = column_kind(c.1);
    let len = encode_utf8(c.0).len();
    seq![k.0, 0u8, k.1, k.2] + ttc::ub_bytes(size_of(c.1) as nat) + zeros(4) + ttc::ub_bytes(
        k.3 as nat,
    ) + seq![k.4] + ttc::ub_bytes(k.5 as nat) + seq![
        0u8,
        1u8,
        (if len < 255 {
            len
        } else {
            255
        }) as u8,
    ] + ttc::counted_bytes(c.0) + zeros(2) + ttc::ub_bytes(((i + 1) % 65536) as nat) + zeros(1)
}

fn write_column(out: &mut WriteBuf, c: &Column, i: usize)
    ensures
        final(out)@ == old(out)@ + column_bytes((c.name@, c.sql_type), i as int),
{
    let k = kind_of(c.sql_type);
    let len: usize = c.name.as_str().as_bytes().len();
    let head: Vec<u8> = vec![k.0, 0, k.1, k.2];
    let form: Vec<u8> = vec![k.4];
    let tail: Vec<u8> = vec![
        0,
        1,
        if len < 255 {
            len as u8
        } else {
            255
        },
    ];
    assert(head@ =~= seq![k.0, 0u8, k.1, k.2]);
    assert(form@ =~= seq![k.4]);
    assert(tail@ =~= seq![
        0u8,
        1u8,
        (if len < 255 {
            len as nat
        } else {
            255
        }) as u8,
    ]);
    let mut w = WriteBuf::new();
    w.raw(&head);
    assert(w@ =~= head@);
    w.ub4(max_size(c.sql_type));
    write_zeros(&mut w, 4);
    w.ub2(k.3);
    w.raw(&form);
    w.ub4(k.5);
    w.raw(&tail);
    w.str_with_ub4_length(&c.name);
    write_zeros(&mut w, 2);
    w.ub2(((i as u128 + 1) % 65536) as u16);
    write_zeros(&mut w, 1);
    assert(w@ == column_bytes((c.name@, c.sql_type), i as int));
    out.raw(&w.buf);
}

/// The descriptions of the first `n` columns.
pub open spec fn columns_bytes(c: Seq<(Seq<char>, SqlType)>, n: int) -> Seq<u8>
    decreases n,
{
    if n <= 0 || n > c.len() {
        Seq::empty()
    } else {
        columns_bytes(c, n - 1) + column_bytes(c[n - 1], n - 1)
    }
}

/// The sizes of the first `n` columns together, as far as 32 bits hold them.
pub open spec fn row_size(c: Seq<(Seq<char>, SqlType)>, n: int) -> int
    decreases n,
{
    if n <= 0 || n > c.len() {
        0
    } else {
        (row_size(c, n - 1) + size_of(c[n - 1].1)) % 0x1_0000_0000
    }
}

pub open spec fn describe_bytes(c: Seq<(Seq<char>, SqlType)>) -> Seq<u8> {
    seq![MSG_DESCRIBE_INFO, 0u8] + ttc::ub_bytes(row_size(c, c.len() as int) as nat)
        + ttc::ub_bytes((c.len() % 0x1_0000_0000) as nat) + (if c.len() > 0 {
        zeros(1)
    } else {
        Seq::empty()
    }) + columns_bytes(c, c.len() as int) + zeros(6)
}

/// Describes the columns of a query.
pub fn write_describe(out: &mut WriteBuf, columns: &Vec<Column>)
    ensures
        final(out)@ == old(out)@ + describe_bytes(dml::described(columns@)),
{
    let ghost start = out@;
    let ghost c = dml::described(columns@);
    let total: usize = columns.len();
    let mut size: u32 = 0;
    for i in 0..total
        invariant
            total == columns@.len(),
            c == dml::described(columns@),
            size == row_size(c, i as int),
    {
        assert(c[i as int] == (columns@[i as int].name@, columns@[i as int].sql_type));
        let sum: u64 = size as u64 + max_size(columns[i].sql_type) as u64;
        size = (sum % 0x1_0000_0000) as u32;
    }
    out.u8(MSG_DESCRIBE_INFO);
    out.u8(0);
    out.ub4(size);
    out.ub4((total as u128 % 0x1_0000_0000) as u32);
    if total > 0 {
        write_zeros(out, 1);
    }
    let ghost front = out@;
    assert(front + columns_bytes(c, 0) =~= front);
    for i in 0..total
        invariant
            total == columns@.len(),
            c == dml::described(columns@),
            out@ == front + columns_bytes(c, i as int),
    {
        assert(c[i as int] == (columns@[i as int].name@, columns@[i as int].sql_type));
        write_column(out, &columns[i], i);
        assert(out@ =~= front + columns_bytes(c, i + 1));
    }
    write_zeros(out, 6);
    assert(out@ =~= start + describe_bytes(c));
}

/// The start of rows that are sent.
pub open spec fn header_bytes(n: int) -> Seq<u8> {
    if n > 0 {
        seq![MSG_ROW_HEADER] + zeros(3) + ttc::ub_bytes(n as nat) + zeros(3)
    } else {
        Seq::empty()
    }
}

/// The first `n` values of a row.
pub open spec fn row_bytes(row: Seq<Datum>, c: Seq<(Seq<char>, SqlType)>, n: int) -> Seq<u8>
    decreases n,
{
    if n <= 0 || n > row.len() || n > c.len() {
        Seq::empty()
    } else {
        row_bytes(row, c, n - 1) + value_bytes(row[n - 1], c[n - 1].1)
    }
}

pub open spec fn shorter(a: int, b: int) -> int {
    if a < b {
        a
    } else {
        b
    }
}

/// The first `n` rows.
pub open spec fn rows_bytes(rows: Seq<Seq<Datum>>, c: Seq<(Seq<char>, SqlType)>, n: int) -> Seq<u8>
    decreases n,
{
    if n <= 0 || n > rows.len() {
        Seq::empty()
    } else {
        rows_bytes(rows, c, n - 1) + seq![MSG_ROW_DATA] + row_bytes(
            rows[n - 1],
            c,
            shorter(rows[n - 1].len() as int, c.len() as int),
        )
    }
}

} // verus!
