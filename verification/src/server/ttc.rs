//! TTC encoding: the message layer inside TNS DATA packets.
//!
//! Integers use Oracle's variable-length "UB" format: a length byte followed by
//! that many big-endian bytes. Byte strings are length-prefixed, or chunked
//! when longer than 252 bytes.

use vstd::prelude::*;
use vstd::string::*;
use vstd::utf8::*;

use crate::server::tns::{invalid, ProtocolError};
use crate::text;

verus! {

pub const LONG_LENGTH_INDICATOR: u8 = 254;

pub const NULL_LENGTH_INDICATOR: u8 = 255;

pub const MAX_SHORT_LENGTH: usize = 252;

pub const CHUNK_SIZE: usize = 65536;

/// What a read gives: its outcome (a value, or the message of the error), and
/// the bytes that are left.
pub type Reading<T> = (Result<T, Seq<char>>, Seq<u8>);

/// The number that big-endian bytes stand for.
pub open spec fn be_value(b: Seq<u8>) -> nat
    decreases b.len(),
{
    if b.len() == 0 {
        0
    } else {
        be_value(b.drop_last()) * 256 + b.last() as nat
    }
}

/// The `size` big-endian bytes of a number.
pub open spec fn be_bytes(v: nat, size: nat) -> Seq<u8>
    decreases size,
{
    if size == 0 {
        Seq::empty()
    } else {
        be_bytes(v / 256, (size - 1) as nat).push((v % 256) as u8)
    }
}

pub open spec fn truncated(need: nat, have: nat) -> Seq<char> {
    "TTC message truncated: need "@ + text::decimal(need) + " bytes, have "@ + text::decimal(have)
}

/// The next `n` bytes.
pub open spec fn read_bytes(s: Seq<u8>, n: nat) -> Reading<Seq<u8>> {
    if n > s.len() {
        (Err(truncated(n, s.len())), s)
    } else {
        (Ok(s.take(n as int)), s.skip(n as int))
    }
}

/// The next byte.
pub open spec fn read_u8(s: Seq<u8>) -> Reading<u8> {
    if s.len() == 0 {
        (Err(truncated(1, 0)), s)
    } else {
        (Ok(s[0]), s.skip(1))
    }
}

/// A number of at most `max` bytes, and whether its sign bit is set.
pub open spec fn read_var_int(s: Seq<u8>, max: nat) -> Reading<(nat, bool)> {
    match read_u8(s) {
        (Err(e), rest) => (Err(e), rest),
        (Ok(b), rest) => {
            let size = (b % 128) as nat;
            if size > max {
                (
                    Err(
                        "integer of "@ + text::decimal(size) + " bytes exceeds "@ + text::decimal(
                            max,
                        ),
                    ),
                    rest,
                )
            } else {
                match read_bytes(rest, size) {
                    (Err(e), r) => (Err(e), r),
                    (Ok(v), r) => (Ok((be_value(v), b >= 128)), r),
                }
            }
        },
    }
}

/// An unsigned number of at most `max` bytes.
pub open spec fn read_ub(s: Seq<u8>, max: nat) -> Reading<nat> {
    match read_var_int(s, max) {
        (Err(e), rest) => (Err(e), rest),
        (Ok((v, _)), rest) => (Ok(v), rest),
    }
}

/// The chunks of a long byte string, up to the empty one, put behind `acc`.
pub open spec fn read_chunks(s: Seq<u8>, acc: Seq<u8>) -> Reading<Seq<u8>>
    decreases s.len(),
{
    match read_ub(s, 4) {
        (Err(e), rest) => (Err(e), rest),
        (Ok(n), rest) => if n == 0 {
            (Ok(acc), rest)
        } else {
            match read_bytes(rest, n) {
                (Err(e), r) => (Err(e), r),
                (Ok(b), r) => read_chunks(r, acc + b),
            }
        },
    }
}

/// A byte string behind its length; NULL for a length of 0 or 255.
pub open spec fn read_byte_string(s: Seq<u8>) -> Reading<Option<Seq<u8>>> {
    match read_u8(s) {
        (Err(e), rest) => (Err(e), rest),
        (Ok(n), rest) => if n == 0 || n == NULL_LENGTH_INDICATOR {
            (Ok(None), rest)
        } else if n == LONG_LENGTH_INDICATOR {
            match read_chunks(rest, Seq::empty()) {
                (Err(e), r) => (Err(e), r),
                (Ok(b), r) => (Ok(Some(b)), r),
            }
        } else {
            match read_bytes(rest, n as nat) {
                (Err(e), r) => (Err(e), r),
                (Ok(b), r) => (Ok(Some(b)), r),
            }
        },
    }
}

/// A byte string that holds UTF-8 text; NULL is the empty text.
pub open spec fn read_string(s: Seq<u8>) -> Reading<Seq<char>> {
    match read_byte_string(s) {
        (Err(e), rest) => (Err(e), rest),
        (Ok(None), rest) => (Ok(Seq::empty()), rest),
        (Ok(Some(b)), rest) => if valid_utf8(b) {
            (Ok(decode_utf8(b)), rest)
        } else {
            (Err("string is not UTF-8"@), rest)
        },
    }
}

/// A text behind its UB4 length; a length of 0 has nothing behind it.
pub open spec fn read_counted(s: Seq<u8>) -> Reading<Seq<char>> {
    match read_ub(s, 4) {
        (Err(e), rest) => (Err(e), rest),
        (Ok(n), rest) => if n == 0 {
            (Ok(Seq::empty()), rest)
        } else {
            read_string(rest)
        },
    }
}

/// A key, its value and flags.
pub open spec fn read_key_value(s: Seq<u8>) -> Reading<(Seq<char>, Seq<char>, nat)> {
    match read_counted(s) {
        (Err(e), rest) => (Err(e), rest),
        (Ok(key), rest) => match read_counted(rest) {
            (Err(e), r) => (Err(e), r),
            (Ok(val), r) => match read_ub(r, 4) {
                (Err(e), r2) => (Err(e), r2),
                (Ok(flags), r2) => (Ok((key, val, flags)), r2),
            },
        },
    }
}

/// The length byte and the bytes of a number; the length's top bit is its sign.
pub open spec fn var_int_bytes(v: nat, negative: bool) -> Seq<u8> {
    let sign: int = if negative {
        128
    } else {
        0
    };
    if v == 0 {
        seq![0u8]
    } else if v <= 0xff {
        seq![(1 + sign) as u8] + be_bytes(v, 1)
    } else if v <= 0xffff {
        seq![(2 + sign) as u8] + be_bytes(v, 2)
    } else if v <= 0xffff_ffff {
        seq![(4 + sign) as u8] + be_bytes(v, 4)
    } else {
        seq![(8 + sign) as u8] + be_bytes(v, 8)
    }
}

/// The bytes of an unsigned number.
pub open spec fn ub_bytes(v: nat) -> Seq<u8> {
    var_int_bytes(v, false)
}

/// A long byte string, cut into chunks and ended by an empty one.
pub open spec fn chunk_bytes(b: Seq<u8>) -> Seq<u8>
    decreases b.len(),
{
    if b.len() == 0 {
        ub_bytes(0)
    } else if b.len() <= CHUNK_SIZE {
        ub_bytes(b.len()) + b + chunk_bytes(b.skip(b.len() as int))
    } else {
        ub_bytes(CHUNK_SIZE as nat) + b.take(CHUNK_SIZE as int) + chunk_bytes(
            b.skip(CHUNK_SIZE as int),
        )
    }
}

/// A byte string behind its length.
pub open spec fn byte_string_bytes(b: Seq<u8>) -> Seq<u8> {
    if b.len() <= MAX_SHORT_LENGTH {
        seq![b.len() as u8] + b
    } else {
        seq![LONG_LENGTH_INDICATOR] + chunk_bytes(b)
    }
}

/// A text behind its UB4 length, which holds the low 32 bits of the length.
pub open spec fn counted_bytes(s: Seq<char>) -> Seq<u8> {
    let b = encode_utf8(s);
    if s.len() == 0 {
        ub_bytes((b.len() as u32) as nat)
    } else {
        ub_bytes((b.len() as u32) as nat) + byte_string_bytes(b)
    }
}

/// A key, its value and flags.
pub open spec fn key_value_bytes(key: Seq<char>, value: Seq<char>, flags: nat) -> Seq<u8> {
    counted_bytes(key) + counted_bytes(value) + ub_bytes(flags)
}

/// Reads the parts of a message one after the other.
pub struct ReadBuf<'a> {
    buf: &'a [u8],
    pos: usize,
}

impl<'a> View for ReadBuf<'a> {
    type V = Seq<u8>;

    /// The bytes that are left.
    closed spec fn view(&self) -> Seq<u8> {
        self.buf@.skip(self.pos as int)
    }
}

/// What a reader's method did: its result and what it left are as `reading` says.
pub open spec fn gave<T>(
    reading: Reading<T>,
    r: Result<T, Seq<char>>,
    rest: Seq<u8>,
) -> bool {
    reading.0 == r && reading.1 == rest
}

/// The outcome of a read in terms of the values' views.
pub open spec fn outcome<T, U>(r: Result<T, ProtocolError>, f: spec_fn(T) -> U) -> Result<
    U,
    Seq<char>,
> {
    match r {
        Ok(v) => Ok(f(v)),
        Err(e) => Err(e@),
    }
}

impl<'a> ReadBuf<'a> {
    #[verifier::type_invariant]
    spec fn within(self) -> bool {
        self.pos <= self.buf@.len()
    }

    pub fn new(buf: &'a [u8]) -> (r: ReadBuf<'a>)
        ensures
            r@ == buf@,
    {
        let r = ReadBuf { buf, pos: 0 };
        assert(buf@.skip(0) =~= buf@);
        r
    }

    pub fn remaining(&self) -> (n: usize)
        ensures
            n == self@.len(),
    {
        proof {
            use_type_invariant(&*self);
        }
        self.buf.len() - self.pos
    }

    pub fn bytes(&mut self, n: usize) -> (r: Result<&'a [u8], ProtocolError>)
        ensures
            gave(
                read_bytes(old(self)@, n as nat),
                outcome(r, |b: &'a [u8]| b@),
                final(self)@,
            ),
    {
        proof {
            use_type_invariant(&*self);
        }
        let have: usize = self.remaining();
        if n > have {
            let mut m = "TTC message truncated: need ".to_owned();
            text::push_decimal(&mut m, n as u64);
            m.append(" bytes, have ");
            text::push_decimal(&mut m, have as u64);
            return Err(invalid(m));
        }
        let from: usize = self.pos;
        let total: usize = self.buf.len();
        assert(from + n <= total);
        let b: &'a [u8] = vstd::slice::slice_subrange(self.buf, from, from + n);
        self.pos = from + n;
        assert(b@ =~= old(self)@.take(n as int));
        assert(self@ =~= old(self)@.skip(n as int));
        Ok(b)
    }

    pub fn u8(&mut self) -> (r: Result<u8, ProtocolError>)
        ensures
            gave(read_u8(old(self)@), outcome(r, |b: u8| b), final(self)@),
    {
        match self.bytes(1) {
            Ok(b) => Ok(b[0]),
            Err(e) => Err(e),
        }
    }

    fn var_int(&mut self, max: usize) -> (r: Result<(u64, bool), ProtocolError>)
        requires
            max <= 8,
        ensures
            gave(
                read_var_int(old(self)@, max as nat),
                outcome(r, |v: (u64, bool)| (v.0 as nat, v.1)),
                final(self)@,
            ),
            r matches Ok(v) ==> (max <= 4 ==> v.0 < 0x1_0000_0000) && (max <= 2 ==> v.0 < 0x1_0000),
    {
        let b: u8 = match self.u8() {
            Ok(b) => b,
            Err(e) => {
                return Err(e);
            },
        };
        let size: usize = (b % 128) as usize;
        if size > max {
            let mut m = "integer of ".to_owned();
            text::push_decimal(&mut m, size as u64);
            m.append(" bytes exceeds ");
            text::push_decimal(&mut m, max as u64);
            return Err(invalid(m));
        }
        let raw = match self.bytes(size) {
            Ok(raw) => raw,
            Err(e) => {
                return Err(e);
            },
        };
        let mut v: u64 = 0;
        let mut i: usize = 0;
        assert(raw@.take(0) =~= Seq::<u8>::empty());
        while i < raw.len()
            invariant
                i <= raw@.len() <= max <= 8,
                v == be_value(raw@.take(i as int)),
                i == 0 ==> v == 0,
                i == 1 ==> v < 0x100,
                i == 2 ==> v < 0x1_0000,
                i == 3 ==> v < 0x100_0000,
                i == 4 ==> v < 0x1_0000_0000,
                i == 5 ==> v < 0x100_0000_0000,
                i == 6 ==> v < 0x1_0000_0000_0000,
                i == 7 ==> v < 0x100_0000_0000_0000,
            decreases raw@.len() - i,
        {
            assert(raw@.take(i + 1).drop_last() =~= raw@.take(i as int));
            v = v * 256 + raw[i] as u64;
            i = i + 1;
        }
        assert(raw@.take(raw@.len() as int) =~= raw@);
        Ok((v, b >= 128))
    }

    pub fn ub2(&mut self) -> (r: Result<u16, ProtocolError>)
        ensures
            gave(read_ub(old(self)@, 2), outcome(r, |v: u16| v as nat), final(self)@),
    {
        match self.var_int(2) {
            Ok(v) => Ok(v.0 as u16),
            Err(e) => Err(e),
        }
    }

    pub fn ub4(&mut self) -> (r: Result<u32, ProtocolError>)
        ensures
            gave(read_ub(old(self)@, 4), outcome(r, |v: u32| v as nat), final(self)@),
    {
        match self.var_int(4) {
            Ok(v) => Ok(v.0 as u32),
            Err(e) => Err(e),
        }
    }

    /// A length-prefixed byte string; `None` for NULL (length 0 or 255).
    pub fn bytes_with_length(&mut self) -> (r: Result<Option<Vec<u8>>, ProtocolError>)
        ensures
            gave(
                read_byte_string(old(self)@),
                outcome(r, |b: Option<Vec<u8>>| view_of(b)),
                final(self)@,
            ),
    {
        let n: u8 = match self.u8() {
            Ok(n) => n,
            Err(e) => {
                return Err(e);
            },
        };
        if n == 0 || n == NULL_LENGTH_INDICATOR {
            return Ok(None);
        }
        if n == LONG_LENGTH_INDICATOR {
            let ghost start = self@;
            let mut out: Vec<u8> = Vec::new();
            loop
                invariant
                    read_chunks(start, Seq::empty()) == read_chunks(self@, out@),
                    old(self)@.len() > 0,
                    old(self)@[0] == LONG_LENGTH_INDICATOR,
                    start == old(self)@.skip(1),
                decreases self@.len(),
            {
                let ghost before = self@;
                let chunk: usize = match self.ub4() {
                    Ok(n) => n as usize,
                    Err(e) => {
                        return Err(e);
                    },
                };
                if chunk == 0 {
                    return Ok(Some(out));
                }
                match self.bytes(chunk) {
                    Ok(b) => {
                        let ghost had = out@;
                        out.extend_from_slice(b);
                        assert(out@ =~= had + b@);
                    },
                    Err(e) => {
                        return Err(e);
                    },
                }
            }
        }
        match self.bytes(n as usize) {
            Ok(b) => {
                let v = vstd::slice::slice_to_vec(b);
                Ok(Some(v))
            },
            Err(e) => Err(e),
        }
    }

    pub fn string_with_length(&mut self) -> (r: Result<String, ProtocolError>)
        ensures
            gave(read_string(old(self)@), outcome(r, |s: String| s@), final(self)@),
    {
        match self.bytes_with_length() {
            Ok(Some(b)) => match text::utf8_text(b) {
                Some(s) => Ok(s),
                None => Err(invalid("string is not UTF-8".to_owned())),
            },
            Ok(None) => Ok(String::new()),
            Err(e) => Err(e),
        }
    }

    fn counted(&mut self) -> (r: Result<String, ProtocolError>)
        ensures
            gave(read_counted(old(self)@), outcome(r, |s: String| s@), final(self)@),
    {
        match self.ub4() {
            Ok(n) => if n > 0 {
                self.string_with_length()
            } else {
                Ok(String::new())
            },
            Err(e) => Err(e),
        }
    }

    /// A key/value pair as sent in login messages.
    pub fn key_value(&mut self) -> (r: Result<(String, String, u32), ProtocolError>)
        ensures
            gave(
                read_key_value(old(self)@),
                outcome(r, |v: (String, String, u32)| (v.0@, v.1@, v.2 as nat)),
                final(self)@,
            ),
    {
        let key = match self.counted() {
            Ok(s) => s,
            Err(e) => {
                return Err(e);
            },
        };
        let val = match self.counted() {
            Ok(s) => s,
            Err(e) => {
                return Err(e);
            },
        };
        match self.ub4() {
            Ok(flags) => Ok((key, val, flags)),
            Err(e) => Err(e),
        }
    }
}

/// The contents of a byte string that may be NULL.
pub open spec fn view_of(b: Option<Vec<u8>>) -> Option<Seq<u8>> {
    match b {
        Some(v) => Some(v@),
        None => None,
    }
}

/// Puts the parts of a message one behind the other.
pub struct WriteBuf {
    pub buf: Vec<u8>,
}

impl View for WriteBuf {
    type V = Seq<u8>;

    open spec fn view(&self) -> Seq<u8> {
        self.buf@
    }
}

impl WriteBuf {
    pub fn new() -> (w: WriteBuf)
        ensures
            w@ == Seq::<u8>::empty(),
    {
        WriteBuf { buf: Vec::new() }
    }

    pub fn u8(&mut self, v: u8)
        ensures
            final(self)@ == old(self)@.push(v),
    {
        self.buf.push(v);
    }

    pub fn u16_be(&mut self, v: u16)
        ensures
            final(self)@ == old(self)@ + be_bytes(v as nat, 2),
    {
        reveal_with_fuel(be_bytes, 3);
        self.buf.push((v / 256) as u8);
        self.buf.push((v % 256) as u8);
    }

    pub fn u16_le(&mut self, v: u16)
        ensures
            final(self)@ == old(self)@ + be_bytes(v as nat, 2).reverse(),
    {
        reveal_with_fuel(be_bytes, 3);
        self.buf.push((v % 256) as u8);
        self.buf.push((v / 256) as u8);
        assert(be_bytes(v as nat, 2).reverse() =~= seq![(v % 256) as u8, (v / 256) as u8]);
    }

    pub fn raw(&mut self, b: &[u8])
        ensures
            final(self)@ == old(self)@ + b@,
    {
        self.buf.extend_from_slice(b);
        assert(self@ =~= old(self)@ + b@);
    }

    /// The low `size` bytes of a number, the highest first.
    pub(crate) fn be(&mut self, v: u64, size: u8)
        ensures
            final(self)@ == old(self)@ + be_bytes(v as nat, size as nat),
        decreases size,
    {
        if size > 0 {
            self.be(v / 256, size - 1);
            self.buf.push((v % 256) as u8);
        }
        assert(self@ =~= old(self)@ + be_bytes(v as nat, size as nat));
    }

    fn var_int(&mut self, v: u64, negative: bool)
        ensures
            final(self)@ == old(self)@ + var_int_bytes(v as nat, negative),
    {
        let sign: u8 = if negative {
            128
        } else {
            0
        };
        if v == 0 {
            self.u8(0);
        } else if v <= 0xff {
            self.u8(1 + sign);
            self.be(v, 1);
        } else if v <= 0xffff {
            self.u8(2 + sign);
            self.be(v, 2);
        } else if v <= 0xffff_ffff {
            self.u8(4 + sign);
            self.be(v, 4);
        } else {
            self.u8(8 + sign);
            self.be(v, 8);
        }
        assert(self@ =~= old(self)@ + var_int_bytes(v as nat, negative));
    }

    pub fn ub2(&mut self, v: u16)
        ensures
            final(self)@ == old(self)@ + ub_bytes(v as nat),
    {
        self.var_int(v as u64, false);
    }

    pub fn ub4(&mut self, v: u32)
        ensures
            final(self)@ == old(self)@ + ub_bytes(v as nat),
    {
        self.var_int(v as u64, false);
    }

    pub fn ub8(&mut self, v: u64)
        ensures
            final(self)@ == old(self)@ + ub_bytes(v as nat),
    {
        self.var_int(v, false);
    }

    pub fn sb2(&mut self, v: i16)
        ensures
            final(self)@ == old(self)@ + var_int_bytes(
                (if v < 0 {
                    -v as int
                } else {
                    v as int
                }) as nat,
                v < 0,
            ),
    {
        let magnitude: i64 = if v < 0 {
            -(v as i64)
        } else {
            v as i64
        };
        self.var_int(magnitude as u64, v < 0);
    }

    pub fn bytes_with_length(&mut self, b: &[u8])
        ensures
            final(self)@ == old(self)@ + byte_string_bytes(b@),
    {
        if b.len() <= MAX_SHORT_LENGTH {
            self.u8(b.len() as u8);
            self.raw(b);
            assert(self@ =~= old(self)@ + byte_string_bytes(b@));
        } else {
            self.u8(LONG_LENGTH_INDICATOR);
            let ghost head = self@;
            let mut at: usize = 0;
            let total: usize = b.len();
            assert(b@.skip(0) =~= b@);
            while at < total
                invariant
                    at <= total == b@.len(),
                    self@ + chunk_bytes(b@.skip(at as int)) == head + chunk_bytes(b@),
                decreases total - at,
            {
                let ghost left = b@.skip(at as int);
                let ghost before = self@;
                let size: usize = if total - at > CHUNK_SIZE {
                    CHUNK_SIZE
                } else {
                    total - at
                };
                self.ub4(size as u32);
                self.raw(vstd::slice::slice_subrange(b, at, at + size));
                assert(left.take(size as int) =~= b@.subrange(at as int, at + size));
                assert(left.skip(size as int) =~= b@.skip(at + size));
                assert(size < CHUNK_SIZE ==> left.take(size as int) =~= left);
                assert(self@ + chunk_bytes(b@.skip(at + size)) =~= before + (ub_bytes(size as nat)
                    + left.take(size as int) + chunk_bytes(left.skip(size as int))));
                at = at + size;
            }
            self.ub4(0);
            assert(b@.skip(total as int).len() == 0);
            assert(self@ =~= old(self)@ + byte_string_bytes(b@));
        }
    }

    /// A string preceded by its UB4 byte length and then its own length prefix,
    /// the layout used for names in column metadata.
    pub fn str_with_ub4_length(&mut self, s: &str)
        ensures
            final(self)@ == old(self)@ + counted_bytes(s@),
    {
        let b = s.as_bytes();
        self.ub4(b.len() as u32);
        if !s.is_empty() {
            self.bytes_with_length(b);
        }
        assert(self@ =~= old(self)@ + counted_bytes(s@));
    }

    /// A key/value pair as returned in login responses.
    pub fn key_value(&mut self, key: &str, value: &str, flags: u32)
        ensures
            final(self)@ == old(self)@ + key_value_bytes(key@, value@, flags as nat),
    {
        self.str_with_ub4_length(key);
        self.str_with_ub4_length(value);
        self.ub4(flags);
        assert(self@ =~= old(self)@ + key_value_bytes(key@, value@, flags as nat));
    }
}

pub proof fn be_bytes_len(v: nat, size: nat)
    ensures
        be_bytes(v, size).len() == size,
    decreases size,
{
    if size > 0 {
        be_bytes_len(v / 256, (size - 1) as nat);
    }
}

pub proof fn be_value_of_bytes(v: nat, size: nat)
    requires
        v < vstd::arithmetic::power::pow(256, size),
    ensures
        be_value(be_bytes(v, size)) == v,
    decreases size,
{
    reveal(vstd::arithmetic::power::pow);
    be_bytes_len(v, size);
    if size > 0 {
        let p = vstd::arithmetic::power::pow(256, (size - 1) as nat);
        assert(v / 256 < p) by (nonlinear_arith)
            requires
                v < 256 * p,
        ;
        be_value_of_bytes(v / 256, (size - 1) as nat);
        assert(be_bytes(v, size).drop_last() =~= be_bytes(v / 256, (size - 1) as nat));
    }
}

/// Reading gives back a number and its sign as written, and leaves what stood
/// behind it, wherever the reader accepts numbers of that many bytes.
#[verifier::spinoff_prover]
#[verifier::rlimit(50)]
pub proof fn var_int_round_trip(v: nat, negative: bool, max: nat, rest: Seq<u8>)
    requires
        v <= u64::MAX,
        v > 0xffff_ffff ==> max >= 8,
        v > 0xffff ==> max >= 4,
        v > 0xff ==> max >= 2,
        v > 0 ==> max >= 1,
    ensures
        read_var_int(var_int_bytes(v, negative) + rest, max) == (
            Ok::<(nat, bool), Seq<char>>((v, negative && v != 0)),
            rest,
        ),
{
    let size: nat = if v == 0 {
        0
    } else if v <= 0xff {
        1
    } else if v <= 0xffff {
        2
    } else if v <= 0xffff_ffff {
        4
    } else {
        8
    };
    let all = var_int_bytes(v, negative) + rest;
    be_bytes_len(v, size);
    assert(v < vstd::arithmetic::power::pow(256, size)) by {
        reveal_with_fuel(vstd::arithmetic::power::pow, 9);
    }
    be_value_of_bytes(v, size);
    assert(all.skip(1).take(size as int) =~= be_bytes(v, size));
    assert(all.skip(1).skip(size as int) =~= rest);
    assert(be_bytes(v, 0) =~= Seq::<u8>::empty());
}

/// An unsigned number of up to 32 bits reads back as written.
pub proof fn ub4_round_trip(v: u32, rest: Seq<u8>)
    ensures
        read_ub(ub_bytes(v as nat) + rest, 4) == (Ok::<nat, Seq<char>>(v as nat), rest),
{
    var_int_round_trip(v as nat, false, 4, rest);
}

/// An unsigned number of up to 16 bits reads back as written.
pub proof fn ub2_round_trip(v: u16, rest: Seq<u8>)
    ensures
        read_ub(ub_bytes(v as nat) + rest, 2) == (Ok::<nat, Seq<char>>(v as nat), rest),
{
    var_int_round_trip(v as nat, false, 2, rest);
}

#[verifier::spinoff_prover]
#[verifier::rlimit(100)]
proof fn chunks_round_trip(b: Seq<u8>, acc: Seq<u8>, rest: Seq<u8>)
    ensures
        read_chunks(chunk_bytes(b) + rest, acc) == (Ok::<Seq<u8>, Seq<char>>(acc + b), rest),
    decreases b.len(),
{
    let all = chunk_bytes(b) + rest;
    if b.len() == 0 {
        ub4_round_trip(0, rest);
        assert(acc + b =~= acc);
    } else {
        let n: int = if b.len() <= CHUNK_SIZE {
            b.len() as int
        } else {
            CHUNK_SIZE as int
        };
        let tail = b.take(n) + (chunk_bytes(b.skip(n)) + rest);
        assert(b.len() <= CHUNK_SIZE ==> b.take(n) =~= b);
        assert(all =~= ub_bytes(n as nat) + tail);
        ub4_round_trip(n as u32, tail);
        assert(tail.take(n) =~= b.take(n));
        assert(tail.skip(n) =~= chunk_bytes(b.skip(n)) + rest);
        chunks_round_trip(b.skip(n), acc + b.take(n), rest);
        assert(acc + b.take(n) + b.skip(n) =~= acc + b);
    }
}

/// A byte string reads back as written, long or short; the empty one as NULL.
pub proof fn byte_string_round_trip(b: Seq<u8>, rest: Seq<u8>)
    ensures
        read_byte_string(byte_string_bytes(b) + rest) == (
            Ok::<Option<Seq<u8>>, Seq<char>>(
                if b.len() == 0 {
                    None
                } else {
                    Some(b)
                },
            ),
            rest,
        ),
{
    let all = byte_string_bytes(b) + rest;
    if b.len() <= MAX_SHORT_LENGTH {
        assert(all.skip(1) =~= b + rest);
        assert((b + rest).take(b.len() as int) =~= b);
        assert((b + rest).skip(b.len() as int) =~= rest);
    } else {
        assert(all.skip(1) =~= chunk_bytes(b) + rest);
        chunks_round_trip(b, Seq::empty(), rest);
        assert(Seq::<u8>::empty() + b =~= b);
    }
}

proof fn utf8_of_some(s: Seq<char>)
    requires
        s.len() > 0,
    ensures
        encode_utf8(s).len() > 0,
{
    encode_utf8_decode_utf8(s);
    if encode_utf8(s).len() == 0 {
        assert(decode_utf8(encode_utf8(s)).len() == 0);
    }
}

proof fn counted_round_trip(s: Seq<char>, rest: Seq<u8>)
    requires
        encode_utf8(s).len() <= u32::MAX,
    ensures
        read_counted(counted_bytes(s) + rest) == (Ok::<Seq<char>, Seq<char>>(s), rest),
{
    let b = encode_utf8(s);
    encode_utf8_decode_utf8(s);
    encode_utf8_valid_utf8(s);
    let n = b.len() as u32;
    if s.len() == 0 {
        ub4_round_trip(n, rest);
        assert(s =~= Seq::<char>::empty());
    } else {
        utf8_of_some(s);
        assert(counted_bytes(s) + rest =~= ub_bytes(n as nat) + (byte_string_bytes(b) + rest));
        ub4_round_trip(n, byte_string_bytes(b) + rest);
        byte_string_round_trip(b, rest);
    }
}

/// A key, its value and its flags read back as written. The two texts fit in
/// 32-bit lengths.
pub proof fn key_value_round_trip(key: Seq<char>, value: Seq<char>, flags: u32, rest: Seq<u8>)
    requires
        encode_utf8(key).len() <= u32::MAX,
        encode_utf8(value).len() <= u32::MAX,
    ensures
        read_key_value(key_value_bytes(key, value, flags as nat) + rest) == (
            Ok::<(Seq<char>, Seq<char>, nat), Seq<char>>((key, value, flags as nat)),
            rest,
        ),
{
    let third = ub_bytes(flags as nat) + rest;
    let second = counted_bytes(value) + third;
    assert(key_value_bytes(key, value, flags as nat) + rest =~= counted_bytes(key) + second);
    counted_round_trip(key, second);
    counted_round_trip(value, third);
    ub4_round_trip(flags, rest);
}

} // verus!
