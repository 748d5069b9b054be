//! TNS packet framing: the outer layer of Oracle Net.
//!
//! Every packet starts with an 8-byte header: length, checksum, type, flags,
//! header checksum. Before the connection is accepted the length is 2 bytes;
//! after accepting protocol version 315 or later ("large SDU") it is 4 bytes.

use vstd::prelude::*;
use vstd::string::*;
use vstd::utf8::*;

use crate::server::ttc;
use crate::server::ttc::WriteBuf;
use crate::text;

verus! {

pub const CONNECT: u8 = 1;

pub const ACCEPT: u8 = 2;

pub const REFUSE: u8 = 4;

pub const DATA: u8 = 6;

pub const MARKER: u8 = 12;

pub const CONTROL: u8 = 14;

pub const HEADER_LEN: usize = 8;

/// The longest packet that is read.
pub const MAX_PACKET_LEN: usize = 4194304;

/// Data packet flags (the 2 bytes after the header of a DATA packet).
pub const DATA_FLAG_EOF: u16 = 0x0040;

pub const DATA_FLAG_END_OF_REQUEST: u16 = 0x0800;

/// Protocol version we accept: 3.18 (large SDU, data flags, no end-of-response).
pub const VERSION: u16 = 318;

pub const MIN_VERSION: u16 = 315;

/// Data that does not follow the protocol, with a message that says why.
#[derive(Debug, Clone, PartialEq, Eq)]
pub struct ProtocolError {
    pub message: String,
}

impl View for ProtocolError {
    type V = Seq<char>;

    open spec fn view(&self) -> Seq<char> {
        self.message@
    }
}

pub fn invalid(msg: String) -> (e: ProtocolError)
    ensures
        e@ == msg@,
{
    ProtocolError { message: msg }
}

#[derive(Debug)]
pub struct Packet {
    pub kind: u8,
    /// Everything after the 8-byte header.
    pub body: Vec<u8>,
}

impl Packet {
    /// For DATA packets: the data flags.
    pub fn data_flags(&self) -> (flags: u16)
        requires
            self.body@.len() >= 2,
        ensures
            flags == ttc::be_value(self.body@.take(2)),
    {
        proof {
            reveal_with_fuel(ttc::be_value, 3);
            assert(self.body@.take(2).drop_last().drop_last() =~= Seq::<u8>::empty());
        }
        self.body[0] as u16 * 256 + self.body[1] as u16
    }

    /// For DATA packets: the payload after the data flags.
    pub fn data(&self) -> (payload: &[u8])
        requires
            self.body@.len() >= 2,
        ensures
            payload@ == self.body@.skip(2),
    {
        let payload = vstd::slice::slice_subrange(self.body.as_slice(), 2, self.body.len());
        assert(payload@ =~= self.body@.skip(2));
        payload
    }
}

/// The big-endian number in two bytes.
fn be16(b: &[u8], at: usize) -> (v: u16)
    requires
        at + 2 <= b@.len(),
    ensures
        v == ttc::be_value(b@.subrange(at as int, at + 2)),
{
    proof {
        reveal_with_fuel(ttc::be_value, 3);
        let s = b@.subrange(at as int, at + 2);
        assert(s.drop_last().drop_last() =~= Seq::<u8>::empty());
    }
    b[at] as u16 * 256 + b[at + 1] as u16
}

/// The big-endian number in four bytes.
fn be32(b: &[u8], at: usize) -> (v: u32)
    requires
        at + 4 <= b@.len(),
    ensures
        v == ttc::be_value(b@.subrange(at as int, at + 4)),
{
    proof {
        reveal_with_fuel(ttc::be_value, 5);
        let s = b@.subrange(at as int, at + 4);
        assert(s.drop_last().drop_last().drop_last().drop_last() =~= Seq::<u8>::empty());
    }
    ((b[at] as u32 * 256 + b[at + 1] as u32) * 256 + b[at + 2] as u32) * 256 + b[at + 3] as u32
}

/// The length that a header announces.
pub open spec fn announced_len(header: Seq<u8>, large_sdu: bool) -> nat {
    ttc::be_value(
        header.take(
            if large_sdu {
                4
            } else {
                2
            },
        ),
    )
}

/// How many bytes follow a packet's header, or the error when the length that
/// it announces is out of bounds.
pub fn body_len(header: &[u8], large_sdu: bool) -> (r: Result<usize, ProtocolError>)
    requires
        header@.len() == HEADER_LEN,
    ensures
        ({
            let len = announced_len(header@, large_sdu);
            match r {
                Ok(n) => HEADER_LEN <= len <= MAX_PACKET_LEN && n == len - HEADER_LEN,
                Err(e) => !(HEADER_LEN <= len <= MAX_PACKET_LEN) && e@ == "bad TNS packet length "@
                    + text::decimal(len),
            }
        }),
{
    let len: usize = if large_sdu {
        be32(header, 0) as usize
    } else {
        be16(header, 0) as usize
    };
    assert(header@.subrange(0, 4) =~= header@.take(4));
    assert(header@.subrange(0, 2) =~= header@.take(2));
    if len < HEADER_LEN || len > MAX_PACKET_LEN {
        return Err(invalid(text::join("bad TNS packet length ", &text::decimal_text(len as u64))));
    }
    Ok(len - HEADER_LEN)
}

/// The packet made of a header and the body that followed it. A DATA packet
/// has data flags.
pub fn packet_of(header: &[u8], body: Vec<u8>) -> (r: Result<Packet, ProtocolError>)
    requires
        header@.len() == HEADER_LEN,
    ensures
        match r {
            Ok(p) => p.kind == header@[4] && p.body@ == body@ && !(header@[4] == DATA
                && body@.len() < 2),
            Err(e) => header@[4] == DATA && body@.len() < 2 && e@
                == "DATA packet without data flags"@,
        },
{
    let kind: u8 = header[4];
    if kind == DATA && body.len() < 2 {
        return Err(invalid("DATA packet without data flags".to_owned()));
    }
    Ok(Packet { kind, body })
}

/// A packet on the wire. The length field holds the low bits of the length.
pub open spec fn framed(large_sdu: bool, kind: u8, body: Seq<u8>) -> Seq<u8> {
    let len = HEADER_LEN + body.len();
    (if large_sdu {
        ttc::be_bytes((len as u32) as nat, 4)
    } else {
        ttc::be_bytes((len as u16) as nat, 2) + seq![0u8, 0u8]
    }) + seq![kind, 0u8, 0u8, 0u8] + body
}

/// The bytes of a packet.
pub fn packet_bytes(large_sdu: bool, kind: u8, body: &[u8]) -> (out: Vec<u8>)
    requires
        HEADER_LEN + body@.len() <= usize::MAX,
    ensures
        out@ == framed(large_sdu, kind, body@),
{
    let len: usize = HEADER_LEN + body.len();
    let mut out = WriteBuf::new();
    if large_sdu {
        out.be((len as u32) as u64, 4);
    } else {
        out.be((len as u16) as u64, 2);
        out.u8(0);
        out.u8(0);
    }
    out.u8(kind);
    out.u8(0);
    out.u8(0);
    out.u8(0);
    out.raw(body);
    assert(out@ =~= framed(large_sdu, kind, body@));
    out.buf
}

/// A payload cut into pieces of `size` bytes, the last one of what is left.
pub open spec fn pieces(payload: Seq<u8>, size: nat) -> Seq<Seq<u8>>
    decreases payload.len(),
{
    if payload.len() == 0 || size == 0 {
        Seq::empty()
    } else if payload.len() <= size {
        seq![payload]
    } else {
        seq![payload.take(size as int)] + pieces(payload.skip(size as int), size)
    }
}

/// The body of a DATA packet: no data flags are set.
pub open spec fn data_body(piece: Seq<u8>) -> Seq<u8> {
    seq![0u8, 0u8] + piece
}

/// The bytes of the DATA packets, each of which fits in `sdu`, that carry a
/// TTC payload.
pub fn data_packets(sdu: usize, payload: &[u8]) -> (out: Vec<Vec<u8>>)
    requires
        sdu > HEADER_LEN + 2,
    ensures
        out@.len() == pieces(payload@, (sdu - HEADER_LEN - 2) as nat).len(),
        forall|i: int|
            0 <= i < out@.len() ==> (#[trigger] out@[i])@ == framed(
                true,
                DATA,
                data_body(pieces(payload@, (sdu - HEADER_LEN - 2) as nat)[i]),
            ),
{
    let size: usize = sdu - HEADER_LEN - 2;
    let mut out: Vec<Vec<u8>> = Vec::new();
    let mut at: usize = 0;
    let total: usize = payload.len();
    assert(payload@.skip(0) =~= payload@);
    let ghost all = pieces(payload@, size as nat);
    assert(all.skip(0) =~= all);
    while at < total
        invariant
            at <= total == payload@.len(),
            0 < size == sdu - HEADER_LEN - 2,
            all == pieces(payload@, size as nat),
            out@.len() <= all.len(),
            all.skip(out@.len() as int) == pieces(payload@.skip(at as int), size as nat),
            forall|i: int|
                0 <= i < out@.len() ==> (#[trigger] out@[i])@ == framed(true, DATA, data_body(all[i])),
        decreases total - at,
    {
        let ghost left = payload@.skip(at as int);
        let ghost done = out@.len() as int;
        let n: usize = if total - at > size {
            size
        } else {
            total - at
        };
        let mut body: Vec<u8> = Vec::new();
        body.push(0);
        body.push(0);
        body.extend_from_slice(vstd::slice::slice_subrange(payload, at, at + n));
        assert(body@ =~= data_body(left.take(n as int)));
        assert(left.len() <= size ==> left.take(n as int) =~= left);
        assert(pieces(left, size as nat)[0] == left.take(n as int));
        assert(all.skip(done).len() > 0);
        assert(all[done] == all.skip(done)[0]);
        assert(body@.len() == n + 2);
        out.push(packet_bytes(true, DATA, body.as_slice()));
        assert(all.skip(done + 1) =~= all.skip(done).skip(1));
        assert(left.skip(n as int) =~= payload@.skip(at + n));
        assert(pieces(left, size as nat).skip(1) =~= pieces(left.skip(n as int), size as nat));
        at = at + n;
    }
    assert(payload@.skip(total as int).len() == 0);
    assert(all.skip(out@.len() as int).len() == 0);
    out
}

/// The fields of a CONNECT packet that matter to us.
#[derive(Debug)]
pub struct ConnectRequest {
    pub version: u16,
    pub sdu: u32,
    pub tdu: u32,
    /// Bytes of connect data announced; they follow in a separate DATA packet
    /// when they do not fit in the CONNECT packet itself.
    pub data_len: usize,
    pub data: Vec<u8>,
}

/// The bytes of a packet from one offset to another. Offsets are relative to
/// the packet start; `body` starts at offset 8.
pub open spec fn field(body: Seq<u8>, from: int, to: int) -> Seq<u8> {
    body.subrange(from - HEADER_LEN, to - HEADER_LEN)
}

/// The connect data inside a CONNECT packet; empty when it is not in there.
pub open spec fn connect_data(body: Seq<u8>) -> Seq<u8> {
    let len = ttc::be_value(field(body, 24, 26)) as int;
    let off = ttc::be_value(field(body, 26, 28)) as int;
    if off >= HEADER_LEN && body.len() >= off - HEADER_LEN + len {
        field(body, off, off + len)
    } else {
        Seq::empty()
    }
}

pub fn parse_connect(p: &Packet) -> (r: Result<ConnectRequest, ProtocolError>)
    ensures
        match r {
            Ok(c) => {
                let b = p.body@;
                &&& b.len() >= 74 - HEADER_LEN
                &&& c.version == ttc::be_value(field(b, 8, 10))
                &&& c.sdu == ttc::be_value(field(b, 58, 62))
                &&& c.tdu == ttc::be_value(field(b, 62, 66))
                &&& c.data_len == ttc::be_value(field(b, 24, 26))
                &&& c.data@ == connect_data(b)
            },
            Err(e) => p.body@.len() < 74 - HEADER_LEN && e@ == "short CONNECT packet"@,
        },
{
    let b = p.body.as_slice();
    if b.len() < 66 {
        return Err(invalid("short CONNECT packet".to_owned()));
    }
    let data_len: usize = be16(b, 16) as usize;
    let data_off: usize = be16(b, 18) as usize;
    let data = if data_off >= HEADER_LEN && b.len() >= data_off - HEADER_LEN + data_len {
        let from: usize = data_off - HEADER_LEN;
        vstd::slice::slice_to_vec(vstd::slice::slice_subrange(b, from, from + data_len))
    } else {
        Vec::new()
    };
    Ok(ConnectRequest { version: be16(b, 0), sdu: be32(b, 50), tdu: be32(b, 54), data_len, data })
}

pub open spec fn at_most(v: int, max: int) -> int {
    if v <= max {
        v
    } else {
        max
    }
}

pub open spec fn zeros(n: nat) -> Seq<u8> {
    Seq::new(n, |i: int| 0u8)
}

/// The body of an ACCEPT packet, from offset 8 to offset 45.
pub open spec fn accept_layout(sdu: nat, tdu: nat) -> Seq<u8> {
    ttc::be_bytes(VERSION as nat, 2)  // offset 8
         + ttc::be_bytes(0x0001, 2)  // offset 10, options: don't care
         + ttc::be_bytes(at_most(sdu as int, 0xffff) as nat, 2)  // offset 12
         + ttc::be_bytes(at_most(tdu as int, 0xffff) as nat, 2)  // offset 14
         + ttc::be_bytes(0x0100, 2)  // offset 16, hardware byte order
         + ttc::be_bytes(0, 2)  // offset 18, accept data length
         + ttc::be_bytes(45, 2)  // offset 20, accept data offset
         + seq![0u8, 0x08u8]  // offset 22; flag1 at 23: no network services
         + zeros(8)  // offset 24
         + ttc::be_bytes(sdu, 4)  // offset 32
         + ttc::be_bytes(tdu, 4)  // offset 36
         + zeros(5)  // offset 40: compression off; 41..45: accept flags2
}

/// Builds the body of an ACCEPT packet (version 3.18, no network services, no
/// compression, no end-of-response or fast-auth support).
pub fn accept_body(sdu: u32, tdu: u32) -> (b: Vec<u8>)
    ensures
        b@ == accept_layout(sdu as nat, tdu as nat),
        b@.len() + HEADER_LEN == 45,
{
    let mut w = WriteBuf::new();
    w.u16_be(VERSION);
    w.u16_be(0x0001);
    w.u16_be(
        if sdu <= 0xffff {
            sdu as u16
        } else {
            0xffff
        },
    );
    w.u16_be(
        if tdu <= 0xffff {
            tdu as u16
        } else {
            0xffff
        },
    );
    w.u16_be(0x0100);
    w.u16_be(0);
    w.u16_be(45);
    w.u8(0);
    w.u8(0x08);
    let ghost head = w@;
    for i in 0..8usize
        invariant
            w@ == head + zeros(i as nat),
    {
        w.u8(0);
        assert(w@ =~= head + zeros((i + 1) as nat));
    }
    w.be(sdu as u64, 4);
    w.be(tdu as u64, 4);
    let ghost most = w@;
    for i in 0..5usize
        invariant
            w@ == most + zeros(i as nat),
    {
        w.u8(0);
        assert(w@ =~= most + zeros((i + 1) as nat));
    }
    proof {
        ttc::be_bytes_len(sdu as nat, 4);
        ttc::be_bytes_len(tdu as nat, 4);
        reveal_with_fuel(ttc::be_bytes, 3);
        assert(w@ =~= accept_layout(sdu as nat, tdu as nat));
    }
    w.buf
}

/// The text of a refusal.
pub open spec fn refusal(error: nat) -> Seq<char> {
    "(DESCRIPTION=(ERR="@ + text::decimal(error) + "))"@
}

/// The body of a refusal: a reason, and the text behind its length.
pub open spec fn refuse_layout(error: nat) -> Seq<u8> {
    seq![4u8, 0u8] + ttc::be_bytes((encode_utf8(refusal(error)).len() as u16) as nat, 2)
        + encode_utf8(refusal(error))
}

/// Builds the body of a REFUSE packet carrying an Oracle error number: a user
/// reason, a system reason, and a text behind its length.
pub fn refuse_body(error: u32) -> (b: Vec<u8>)
    ensures
        b@ == refuse_layout(error as nat),
{
    let mut t = "(DESCRIPTION=(ERR=".to_owned();
    text::push_decimal(&mut t, error as u64);
    t.append("))");
    let raw = t.as_str().as_bytes();
    let mut w = WriteBuf::new();
    w.u8(4);
    w.u8(0);
    w.u16_be(raw.len() as u16);
    w.raw(raw);
    assert(w@ =~= seq![4u8, 0u8] + ttc::be_bytes((raw@.len() as u16) as nat, 2) + raw@);
    w.buf
}

/// Whether `(KEY=` stands in a descriptor at a place, in whatever case.
pub open spec fn key_at(descriptor: Seq<char>, key: Seq<char>, i: int) -> bool {
    &&& 0 <= i
    &&& i + key.len() + 2 <= descriptor.len()
    &&& descriptor[i] == '('
    &&& descriptor[i + 1 + key.len()] == '='
    &&& text::upper(descriptor.subrange(i + 1, i + 1 + key.len())) == text::upper(key)
}

/// Whether the first `(KEY=` stands at `i`, and the next `)` behind it at `end`.
pub open spec fn value_between(descriptor: Seq<char>, key: Seq<char>, i: int, end: int) -> bool {
    let start = i + 2 + key.len();
    &&& key_at(descriptor, key, i)
    &&& forall|j: int| 0 <= j < i ==> !key_at(descriptor, key, j)
    &&& start <= end < descriptor.len()
    &&& descriptor[end] == ')'
    &&& forall|j: int| start <= j < end ==> descriptor[j] != ')'
}

/// Extracts `KEY=value` from a connect descriptor, case-insensitively: what
/// stands between the first `(KEY=` and the next `)`.
pub fn descriptor_value(descriptor: &str, key: &str) -> (r: Option<String>)
    ensures
        match r {
            Some(v) => exists|i: int, end: int| #[trigger]
                value_between(descriptor@, key@, i, end) && v@ == descriptor@.subrange(
                    i + 2 + key@.len(),
                    end,
                ),
            None => forall|i: int, end: int| !value_between(descriptor@, key@, i, end),
        },
{
    let d = text::chars_of(descriptor);
    let k = text::chars_of(key);
    let want = key.to_uppercase();
    let total: usize = d.len();
    let width: usize = k.len();
    let mut i: usize = 0;
    while i < total
        invariant
            i <= total == d@.len(),
            width == k@.len(),
            d@ == descriptor@,
            k@ == key@,
            want@ == text::upper(key@),
            forall|j: int| 0 <= j < i ==> !key_at(d@, k@, j),
        decreases total - i,
    {
        if d[i] == '(' && width < total - i - 1 && d[i + 1 + width] == '=' {
            let name = text::string_of(vstd::slice::slice_subrange(d.as_slice(), i + 1, i + 1 + width));
            if name.to_uppercase() == want {
                assert(key_at(d@, k@, i as int));
                let start: usize = i + 2 + width;
                let mut end: usize = start;
                while end < total
                    invariant
                        start <= end <= total == d@.len(),
                        start == i + 2 + k@.len(),
                        d@ == descriptor@,
                        k@ == key@,
                        key_at(d@, k@, i as int),
                        forall|j: int| 0 <= j < i ==> !key_at(d@, k@, j),
                        forall|j: int| start <= j < end ==> d@[j] != ')',
                    decreases total - end,
                {
                    if d[end] == ')' {
                        let v = text::string_of(
                            vstd::slice::slice_subrange(d.as_slice(), start, end),
                        );
                        assert(value_between(descriptor@, key@, i as int, end as int));
                        return Some(v);
                    }
                    end = end + 1;
                }
                return None;
            }
        }
        i = i + 1;
    }
    None
}

/// A packet that was written reads back: its length, kind and body are those
/// that it was written with, where the length fits its field.
pub proof fn framing_round_trip(large_sdu: bool, kind: u8, body: Seq<u8>)
    requires
        HEADER_LEN + body.len() <= if large_sdu {
            0xffff_ffffint
        } else {
            0xffff
        },
    ensures
        ({
            let wire = framed(large_sdu, kind, body);
            &&& announced_len(wire.take(HEADER_LEN as int), large_sdu) == wire.len()
            &&& wire[4] == kind
            &&& wire.skip(HEADER_LEN as int) == body
        }),
{
    let wire = framed(large_sdu, kind, body);
    let len = (HEADER_LEN + body.len()) as nat;
    let size: nat = if large_sdu {
        4
    } else {
        2
    };
    ttc::be_bytes_len(len, size);
    assert(len < vstd::arithmetic::power::pow(256, size)) by {
        reveal_with_fuel(vstd::arithmetic::power::pow, 5);
    }
    ttc::be_value_of_bytes(len, size);
    assert(wire.take(HEADER_LEN as int).take(size as int) =~= ttc::be_bytes(len, size));
    assert(wire.skip(HEADER_LEN as int) =~= body);
}

/// The pieces of a payload, put together.
pub open spec fn joined(parts: Seq<Seq<u8>>) -> Seq<u8>
    decreases parts.len(),
{
    if parts.len() == 0 {
        Seq::empty()
    } else {
        parts[0] + joined(parts.skip(1))
    }
}

/// The DATA packets that carry a payload hold all of it, in order, and each
/// holds something and is no longer than the SDU.
pub proof fn pieces_hold_the_payload(payload: Seq<u8>, size: nat)
    requires
        size > 0,
    ensures
        joined(pieces(payload, size)) == payload,
        forall|i: int|
            0 <= i < pieces(payload, size).len() ==> 0 < (#[trigger] pieces(payload, size)[i]).len()
                <= size,
    decreases payload.len(),
{
    let all = pieces(payload, size);
    if payload.len() == 0 {
        assert(payload =~= Seq::<u8>::empty());
    } else if payload.len() <= size {
        assert(all.skip(1) =~= Seq::<Seq<u8>>::empty());
        assert(joined(all.skip(1)) =~= Seq::<u8>::empty());
        assert(joined(all) =~= payload);
    } else {
        let rest = payload.skip(size as int);
        pieces_hold_the_payload(rest, size);
        assert(all.skip(1) =~= pieces(rest, size));
        assert(joined(all) =~= payload);
    }
}

} // verus!
