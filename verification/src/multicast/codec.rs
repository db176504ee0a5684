//! The bytes of a multicast message on the wire.
//!
//! A message is written in the protocol buffers wire format (proto3): each
//! field that differs from its default is written as a key (field number and
//! wire type, as a varint) followed by its value. The fields are the UUID (1,
//! a string), the kind (2, an `int32`), the timestamp (3, a message of
//! seconds (1, `int64`) and nanos (2, `int32`)), the body (4, a string), the
//! time-to-live (5, a `uint32`) and the checksum (6, a `uint64`).
//!
//! Reading accepts the fields in any order and repeated (the last one wins;
//! a repeated timestamp is merged), and skips fields it does not know, groups
//! among them, as protocol buffers readers do; it goes at most
//! [`RECURSION_LIMIT`] levels deep into groups and nested messages.
use vstd::prelude::*;
use vstd::utf8::{decode_utf8, encode_utf8, valid_utf8};

use super::build_error;
use super::message::{MessageView, MulticastMessage, Timestamp};

verus! {

broadcast use vstd::utf8::encode_utf8_decode_utf8, vstd::utf8::encode_utf8_valid_utf8;

/* ---------------------------------------------------------------- varints */

/// The varint (LEB128) bytes of a number: seven bits per byte, low bits
/// first, the high bit set on every byte but the last.
pub open spec fn varint(v: nat) -> Seq<u8>
    decreases v,
{
    if v < 128 {
        seq![v as u8]
    } else {
        seq![((v % 128) + 128) as u8] + varint(v / 128)
    }
}

/// The largest value a varint of at most `d` bytes may hold, given that a
/// tenth byte may only be 0 or 1.
pub open spec fn varint_bound(d: nat) -> nat
    decreases d,
{
    if d <= 1 {
        1
    } else {
        127 + 128 * varint_bound((d - 1) as nat)
    }
}

/// Reads a varint of at most `d` bytes from the start of `b`, where the
/// `d`-th byte may only be 0 or 1: the value and the number of bytes read.
pub open spec fn read_varint(b: Seq<u8>, d: nat) -> Option<(nat, nat)>
    decreases d,
{
    if d == 0 || b.len() == 0 {
        None
    } else if d == 1 && b[0] > 1 {
        None
    } else if b[0] < 128 {
        Some((b[0] as nat, 1nat))
    } else {
        match read_varint(b.drop_first(), (d - 1) as nat) {
            Some((v, n)) => Some((((b[0] - 128) + 128 * v) as nat, n + 1)),
            None => None,
        }
    }
}

/// Reads a varint as protocol buffers readers do: at most ten bytes.
pub open spec fn read_u64(b: Seq<u8>) -> Option<(nat, nat)> {
    read_varint(b, 10)
}

proof fn lemma_varint_bound_10()
    ensures
        varint_bound(10) == u64::MAX,
{
    reveal_with_fuel(varint_bound, 11);
}

proof fn lemma_varint_bound_grows(d: nat)
    requires
        d >= 1,
    ensures
        varint_bound(d) >= 1,
        d >= 2 ==> varint_bound(d) >= 128,
    decreases d,
{
    if d >= 2 {
        lemma_varint_bound_grows((d - 1) as nat);
    }
}

/// Reading the varint of a number that fits gives the number and the
/// varint's length back, whatever follows it.
pub proof fn lemma_varint_roundtrip(v: nat, d: nat, rest: Seq<u8>)
    requires
        d >= 1,
        v <= varint_bound(d),
    ensures
        read_varint(varint(v) + rest, d) == Some((v, varint(v).len())),
        1 <= varint(v).len() <= d,
    decreases v,
{
    lemma_varint_bound_grows(d);
    let b = varint(v) + rest;
    if v < 128 {
        assert(b[0] == v as u8);
    } else {
        assert(d >= 2);
        assert(v / 128 <= varint_bound((d - 1) as nat)) by (nonlinear_arith)
            requires
                v <= 127 + 128 * varint_bound((d - 1) as nat),
        ;
        lemma_varint_roundtrip(v / 128, (d - 1) as nat, rest);
        assert(b.drop_first() =~= varint(v / 128) + rest);
        assert(b[0] == ((v % 128) + 128) as u8);
        assert((v % 128) + 128 * (v / 128) == v) by (nonlinear_arith);
    }
}

/// What a varint reading gives fits in its bound, and takes at least one
/// byte and no more than there are.
pub proof fn lemma_read_varint_bound(b: Seq<u8>, d: nat)
    ensures
        read_varint(b, d) matches Some((v, n)) ==> v <= varint_bound(d) && 1 <= n <= d && n <= b.len(),
    decreases d,
{
    if d > 1 && b.len() > 0 && b[0] >= 128 {
        lemma_read_varint_bound(b.drop_first(), (d - 1) as nat);
        if let Some((v, n)) = read_varint(b.drop_first(), (d - 1) as nat) {
            assert((b[0] - 128) + 128 * v <= 127 + 128 * varint_bound((d - 1) as nat)) by (nonlinear_arith)
                requires
                    v <= varint_bound((d - 1) as nat),
                    0 <= b[0] - 128 <= 127,
            ;
        }
    }
    if d >= 1 {
        lemma_varint_bound_grows(d);
    }
}

/// Appends the varint bytes of `v`.
pub fn push_varint(out: &mut Vec<u8>, v: u64)
    ensures
        final(out)@ == old(out)@ + varint(v as nat),
    decreases v,
{
    if v < 128 {
        out.push(v as u8);
        assert(old(out)@ + varint(v as nat) =~= old(out)@.push(v as u8));
    } else {
        out.push(((v % 128) + 128) as u8);
        push_varint(out, v / 128);
        assert(old(out)@ + varint(v as nat) =~= old(out)@.push(((v % 128) + 128) as u8) + varint(
            (v / 128) as nat,
        ));
    }
}

fn read_varint_rec(b: &[u8], pos: usize, d: usize) -> (r: Option<(u64, usize)>)
    requires
        pos <= b@.len(),
        d <= 10,
    ensures
        r == match read_varint(b@.skip(pos as int), d as nat) {
            Some((v, n)) => Some((v as u64, (pos + n) as usize)),
            None => None,
        },
        r matches Some((v, p)) ==> pos < p <= b@.len(),
    decreases d,
{
    proof {
        lemma_read_varint_bound(b@.skip(pos as int), d as nat);
        if d >= 1 {
            lemma_varint_bound_le_max(d as nat);
        }
    }
    if d == 0 || pos >= b.len() {
        return None;
    }
    let byte = b[pos];
    if d == 1 && byte > 1 {
        return None;
    }
    if byte < 128 {
        return Some((byte as u64, pos + 1));
    }
    proof {
        assert(b@.skip(pos as int).drop_first() =~= b@.skip(pos + 1));
        lemma_read_varint_bound(b@.skip(pos + 1), (d - 1) as nat);
        lemma_varint_bound_le_max((d - 1) as nat);
    }
    match read_varint_rec(b, pos + 1, d - 1) {
        Some((v, p)) => {
            proof {
                assert((byte - 128) + 128 * v <= 127 + 128 * varint_bound((d - 1) as nat)) by (nonlinear_arith)
                    requires
                        v <= varint_bound((d - 1) as nat),
                        0 <= byte - 128 <= 127,
                ;
                if d >= 2 {
                    assert(varint_bound(d as nat) == 127 + 128 * varint_bound((d - 1) as nat));
                }
            }
            Some(((byte as u64 - 128) + 128 * v, p))
        },
        None => None,
    }
}

proof fn lemma_varint_bound_le_max(d: nat)
    requires
        1 <= d <= 10,
    ensures
        varint_bound(d) <= u64::MAX,
    decreases 10 - d,
{
    if d < 10 {
        lemma_varint_bound_le_max(d + 1);
        lemma_varint_bound_grows(d);
    } else {
        lemma_varint_bound_10();
    }
}

/// Reads a varint at `pos`: the value and the position after it.
pub fn read_u64_at(b: &[u8], pos: usize) -> (r: Option<(u64, usize)>)
    requires
        pos <= b@.len(),
    ensures
        r is None <==> read_u64(b@.skip(pos as int)) is None,
        r matches Some((v, p)) ==> pos < p <= b@.len() && read_u64(b@.skip(pos as int)) == Some(
            (v as nat, (p - pos) as nat),
        ),
{
    proof {
        lemma_read_varint_bound(b@.skip(pos as int), 10);
        lemma_varint_bound_10();
    }
    let r = read_varint_rec(b, pos, 10);
    proof {
        if r is Some {
            let (v, n) = read_u64(b@.skip(pos as int))->0;
            assert(v <= u64::MAX);
            assert(n <= b@.len() - pos);
            assert(b@.len() == b.len());
            assert((r->0).0 as nat == v);
            assert((r->0).1 == pos + n);
        }
    }
    r
}

/* ------------------------------------------------------- integer casts */

/// The two's complement bits of an `i64`, as protocol buffers write it.
pub open spec fn i64_bits(v: i64) -> nat {
    if v >= 0 {
        v as nat
    } else {
        (v + 0x1_0000_0000_0000_0000) as nat
    }
}

/// The `i64` whose bits these are (`as i64`).
pub open spec fn bits_i64(x: nat) -> i64 {
    if x >= 0x8000_0000_0000_0000 {
        (x - 0x1_0000_0000_0000_0000) as i64
    } else {
        x as i64
    }
}

/// The `i32` of the low 32 bits (`as i32`).
pub open spec fn bits_i32(x: nat) -> i32 {
    let y = x % 0x1_0000_0000;
    if y >= 0x8000_0000 {
        (y - 0x1_0000_0000) as i32
    } else {
        y as i32
    }
}

/// The `u32` of the low 32 bits (`as u32`).
pub open spec fn bits_u32(x: nat) -> u32 {
    (x % 0x1_0000_0000) as u32
}

fn i64_to_bits(v: i64) -> (x: u64)
    ensures
        x == i64_bits(v),
{
    if v >= 0 {
        v as u64
    } else {
        let m: u64 = (-(v + 1)) as u64;
        u64::MAX - m
    }
}

fn bits_to_i64(x: u64) -> (v: i64)
    ensures
        v == bits_i64(x as nat),
{
    if x >= 0x8000_0000_0000_0000 {
        let m: u64 = u64::MAX - x;
        -(m as i64) - 1
    } else {
        x as i64
    }
}

fn bits_to_i32(x: u64) -> (v: i32)
    ensures
        v == bits_i32(x as nat),
{
    let y: u64 = x % 0x1_0000_0000;
    if y >= 0x8000_0000 {
        let m: u64 = 0xffff_ffff - y;
        -(m as i32) - 1
    } else {
        y as i32
    }
}

fn bits_to_u32(x: u64) -> (v: u32)
    ensures
        v == bits_u32(x as nat),
{
    (x % 0x1_0000_0000) as u32
}

proof fn lemma_i64_bits_roundtrip(v: i64)
    ensures
        bits_i64(i64_bits(v)) == v,
        i64_bits(v) <= u64::MAX,
{
}

proof fn lemma_i32_bits_roundtrip(v: i32)
    ensures
        bits_i32(i64_bits(v as i64)) == v,
        i64_bits(v as i64) <= u64::MAX,
{
    if v < 0 {
        let x = (v + 0x1_0000_0000_0000_0000) as nat;
        assert(x % 0x1_0000_0000 == (v + 0x1_0000_0000) as nat) by (nonlinear_arith)
            requires
                x == v + 0x1_0000_0000_0000_0000,
                -0x8000_0000 <= v < 0,
        {
            assert(x == (v + 0x1_0000_0000) + 0xffff_ffff * 0x1_0000_0000);
        }
    }
}

/* ---------------------------------------------------- writing messages */

/// The key of a field: its number and wire type.
pub open spec fn key(tag: nat, wire_type: nat) -> Seq<u8> {
    varint(tag * 8 + wire_type)
}

/// A varint field.
pub open spec fn varint_field(tag: nat, v: nat) -> Seq<u8> {
    key(tag, 0) + varint(v)
}

/// A length-delimited field.
pub open spec fn bytes_field(tag: nat, payload: Seq<u8>) -> Seq<u8> {
    key(tag, 2) + varint(payload.len()) + payload
}

/// A string field, left out when empty.
pub open spec fn string_field(tag: nat, s: Seq<char>) -> Seq<u8> {
    if s.len() == 0 {
        Seq::empty()
    } else {
        bytes_field(tag, encode_utf8(s))
    }
}

/// An integer field, left out when 0.
pub open spec fn number_field(tag: nat, v: nat) -> Seq<u8> {
    if v == 0 {
        Seq::empty()
    } else {
        varint_field(tag, v)
    }
}

/// The bytes of a timestamp message.
pub open spec fn encode_timestamp(t: (i64, i32)) -> Seq<u8> {
    number_field(1, i64_bits(t.0)) + number_field(2, i64_bits(t.1 as i64))
}

/// The bytes of a multicast message.
pub open spec fn encode_message(m: MessageView) -> Seq<u8> {
    string_field(1, m.uuid) + number_field(2, i64_bits(m.kind as i64)) + match m.timestamp {
        Some(t) => bytes_field(3, encode_timestamp(t)),
        None => Seq::empty(),
    } + string_field(4, m.body) + number_field(5, m.ttl as nat) + number_field(6, m.checksum as nat)
}

fn push_key(out: &mut Vec<u8>, tag: u64, wire_type: u64)
    requires
        tag <= 16,
        wire_type < 8,
    ensures
        final(out)@ == old(out)@ + key(tag as nat, wire_type as nat),
{
    push_varint(out, tag * 8 + wire_type);
}

fn push_number_field(out: &mut Vec<u8>, tag: u64, v: u64)
    requires
        tag <= 16,
    ensures
        final(out)@ == old(out)@ + number_field(tag as nat, v as nat),
{
    if v == 0 {
        assert(old(out)@ + Seq::<u8>::empty() =~= old(out)@);
    } else {
        push_key(out, tag, 0);
        push_varint(out, v);
        assert(old(out)@ + key(tag as nat, 0) + varint(v as nat) =~= old(out)@ + varint_field(
            tag as nat,
            v as nat,
        ));
    }
}

fn push_bytes_field(out: &mut Vec<u8>, tag: u64, payload: &[u8])
    requires
        tag <= 16,
    ensures
        final(out)@ == old(out)@ + bytes_field(tag as nat, payload@),
{
    push_key(out, tag, 2);
    push_varint(out, payload.len() as u64);
    let ghost mid = out@;
    let mut i: usize = 0;
    while i < payload.len()
        invariant
            0 <= i <= payload@.len(),
            out@ == mid + payload@.take(i as int),
        decreases payload@.len() - i,
    {
        out.push(payload[i]);
        i = i + 1;
        assert(out@ =~= mid + payload@.take(i as int));
    }
    assert(payload@.take(payload@.len() as int) =~= payload@);
    assert(old(out)@ + key(tag as nat, 2) + varint(payload@.len()) + payload@ =~= old(out)@ + bytes_field(
        tag as nat,
        payload@,
    ));
}

fn push_string_field(out: &mut Vec<u8>, tag: u64, s: &str)
    requires
        tag <= 16,
    ensures
        final(out)@ == old(out)@ + string_field(tag as nat, s@),
{
    let bytes = s.as_bytes();
    proof {
        assert(bytes@ == encode_utf8(s@));
    }
    if bytes.len() == 0 {
        proof {
            if s@.len() > 0 {
                lemma_encode_nonempty(s@);
            }
        }
        assert(old(out)@ + Seq::<u8>::empty() =~= old(out)@);
    } else {
        proof {
            if s@.len() == 0 {
                assert(encode_utf8(s@) =~= Seq::<u8>::empty()) by {
                    reveal_with_fuel(encode_utf8, 2);
                }
            }
        }
        push_bytes_field(out, tag, bytes);
    }
}

proof fn lemma_encode_nonempty(s: Seq<char>)
    requires
        s.len() > 0,
    ensures
        encode_utf8(s).len() > 0,
{
    assert(decode_utf8(encode_utf8(s)) == s);
    if encode_utf8(s).len() == 0 {
        assert(decode_utf8(encode_utf8(s)) =~= Seq::<char>::empty()) by {
            reveal_with_fuel(decode_utf8, 2);
        }
    }
}

impl MulticastMessage {
    /// The message in its wire format.
    pub fn to_bytes(&self) -> (b: Vec<u8>)
        ensures
            b@ == encode_message(self@),
    {
        let mut out: Vec<u8> = Vec::new();
        push_string_field(&mut out, 1, self.uuid.as_str());
        push_number_field(&mut out, 2, i64_to_bits(self.kind as i64));
        let ghost before_ts = out@;
        match self.timestamp {
            Some(t) => {
                let mut inner: Vec<u8> = Vec::new();
                push_number_field(&mut inner, 1, i64_to_bits(t.seconds));
                push_number_field(&mut inner, 2, i64_to_bits(t.nanos as i64));
                assert(inner@ =~= encode_timestamp((t.seconds, t.nanos)));
                push_bytes_field(&mut out, 3, inner.as_slice());
            },
            None => {},
        }
        let ghost after_ts = out@;
        push_string_field(&mut out, 4, self.body.as_str());
        push_number_field(&mut out, 5, self.ttl as u64);
        push_number_field(&mut out, 6, self.checksum);
        assert(out@ =~= encode_message(self@));
        out
    }
}

/* ---------------------------------------------------- reading messages */

/// Reads a key: the field number and wire type, and the bytes read. The key
/// must fit in 32 bits, its wire type must be one of the six known ones and
/// its field number must not be 0.
pub open spec fn read_key(b: Seq<u8>) -> Option<(nat, nat, nat)> {
    match read_u64(b) {
        Some((k, n)) => if k <= u32::MAX && k % 8 <= 5 && k / 8 >= 1 {
            Some((k / 8, k % 8, n))
        } else {
            None
        },
        None => None,
    }
}

/// Reads a length-delimited value: the payload and the bytes read.
pub open spec fn read_delimited(b: Seq<u8>) -> Option<(Seq<u8>, nat)> {
    match read_u64(b) {
        Some((len, n)) => if n + len <= b.len() {
            Some((b.subrange(n as int, (n + len) as int), n + len))
        } else {
            None
        },
        None => None,
    }
}

/// How deep readers go into groups and nested messages.
pub const RECURSION_LIMIT: u32 = 100;

/// The number of bytes of the value of an unknown field with the given wire
/// type and number, skipped at nesting depth `depth` (which counts down to
/// 0, where nothing more is read). A group (wire type 3) runs up to the key
/// that ends it, which must carry its number; its fields are skipped one
/// level deeper. An end of group (wire type 4) out of place is refused.
pub open spec fn skip_field(wire_type: nat, tag: nat, b: Seq<u8>, depth: nat) -> Option<nat>
    decreases b.len(), 1nat,
{
    if depth == 0 {
        None
    } else if wire_type == 0 {
        match read_u64(b) {
            Some((_, n)) => Some(n),
            None => None,
        }
    } else if wire_type == 1 {
        if b.len() >= 8 {
            Some(8nat)
        } else {
            None
        }
    } else if wire_type == 2 {
        match read_delimited(b) {
            Some((_, n)) => Some(n),
            None => None,
        }
    } else if wire_type == 3 {
        skip_group(tag, b, depth)
    } else if wire_type == 5 {
        if b.len() >= 4 {
            Some(4nat)
        } else {
            None
        }
    } else {
        None
    }
}

/// The number of bytes of the rest of a group with number `tag`, up to and
/// with the key that ends it.
pub open spec fn skip_group(tag: nat, b: Seq<u8>, depth: nat) -> Option<nat>
    decreases b.len(), 0nat,
{
    match read_key(b) {
        None => None,
        Some((t, w, n)) => if n < 1 || n > b.len() {
            None
        } else if w == 4 {
            if t == tag {
                Some(n)
            } else {
                None
            }
        } else {
            match skip_field(w, t, b.skip(n as int), (depth - 1) as nat) {
                Some(k) => if n + k > b.len() {
                    None
                } else {
                    match skip_group(tag, b.skip((n + k) as int), depth) {
                        Some(m) => Some(n + k + m),
                        None => None,
                    }
                },
                None => None,
            }
        },
    }
}

/// Reads the fields of a timestamp message over the given timestamp.
pub open spec fn read_timestamp_fields(b: Seq<u8>, t: (i64, i32)) -> Option<(i64, i32)>
    decreases b.len(),
{
    if b.len() == 0 {
        Some(t)
    } else {
        match read_key(b) {
            None => None,
            Some((tag, wt, n)) => {
                let rest = b.skip(n as int);
                let step: Option<((i64, i32), nat)> = if tag == 1 {
                    if wt != 0 {
                        None
                    } else {
                        match read_u64(rest) {
                            Some((v, k)) => Some(((bits_i64(v), t.1), k)),
                            None => None,
                        }
                    }
                } else if tag == 2 {
                    if wt != 0 {
                        None
                    } else {
                        match read_u64(rest) {
                            Some((v, k)) => Some(((t.0, bits_i32(v)), k)),
                            None => None,
                        }
                    }
                } else {
                    match skip_field(wt, tag, rest, (RECURSION_LIMIT - 1) as nat) {
                        Some(k) => Some((t, k)),
                        None => None,
                    }
                };
                match step {
                    Some((t2, k)) => if n >= 1 && n + k <= b.len() {
                        read_timestamp_fields(b.skip((n + k) as int), t2)
                    } else {
                        None
                    },
                    None => None,
                }
            },
        }
    }
}

/// The message every field of which has its default value.
pub open spec fn default_message() -> MessageView {
    MessageView {
        uuid: Seq::empty(),
        kind: 0,
        timestamp: None,
        body: Seq::empty(),
        ttl: 0,
        checksum: 0,
    }
}

/// Reads one field of a multicast message over `m`: the message with the
/// field read, and the bytes its value takes.
pub open spec fn read_message_field(tag: nat, wt: nat, rest: Seq<u8>, m: MessageView) -> Option<
    (MessageView, nat),
> {
    if tag == 1 || tag == 4 {
        if wt != 2 {
            None
        } else {
            match read_delimited(rest) {
                Some((p, k)) => if valid_utf8(p) {
                    if tag == 1 {
                        Some((MessageView { uuid: decode_utf8(p), ..m }, k))
                    } else {
                        Some((MessageView { body: decode_utf8(p), ..m }, k))
                    }
                } else {
                    None
                },
                None => None,
            }
        }
    } else if tag == 3 {
        if wt != 2 {
            None
        } else {
            match read_delimited(rest) {
                Some((p, k)) => {
                    let start = match m.timestamp {
                        Some(t) => t,
                        None => (0i64, 0i32),
                    };
                    match read_timestamp_fields(p, start) {
                        Some(t) => Some((MessageView { timestamp: Some(t), ..m }, k)),
                        None => None,
                    }
                },
                None => None,
            }
        }
    } else if tag == 2 || tag == 5 || tag == 6 {
        if wt != 0 {
            None
        } else {
            match read_u64(rest) {
                Some((v, k)) => if tag == 2 {
                    Some((MessageView { kind: bits_i32(v), ..m }, k))
                } else if tag == 5 {
                    Some((MessageView { ttl: bits_u32(v), ..m }, k))
                } else {
                    Some((MessageView { checksum: v as u64, ..m }, k))
                },
                None => None,
            }
        }
    } else {
        match skip_field(wt, tag, rest, RECURSION_LIMIT as nat) {
            Some(k) => Some((m, k)),
            None => None,
        }
    }
}

/// Reads the key and value of one field of a multicast message over `m`:
/// the message with the field read, and the bytes key and value take.
pub open spec fn read_field(b: Seq<u8>, m: MessageView) -> Option<(MessageView, nat)> {
    match read_key(b) {
        None => None,
        Some((tag, wt, n)) => match read_message_field(tag, wt, b.skip(n as int), m) {
            Some((m2, k)) => Some((m2, n + k)),
            None => None,
        },
    }
}

/// Reads the fields of a multicast message over `m`.
pub open spec fn read_message_fields(b: Seq<u8>, m: MessageView) -> Option<MessageView>
    decreases b.len(),
{
    if b.len() == 0 {
        Some(m)
    } else {
        match read_field(b, m) {
            Some((m2, c)) => if 1 <= c <= b.len() {
                read_message_fields(b.skip(c as int), m2)
            } else {
                None
            },
            None => None,
        }
    }
}

/// The message that bytes in the wire format stand for, if they do.
pub open spec fn decode_message(b: Seq<u8>) -> Option<MessageView> {
    read_message_fields(b, default_message())
}


/* ------------------------------------------------- reading what is written */

proof fn lemma_read_u64_of(v: nat, rest: Seq<u8>)
    requires
        v <= u64::MAX,
    ensures
        read_u64(varint(v) + rest) == Some((v, varint(v).len())),
        1 <= varint(v).len() <= 10,
{
    lemma_varint_bound_10();
    lemma_varint_roundtrip(v, 10, rest);
}

proof fn lemma_read_key_of(tag: nat, wt: nat, rest: Seq<u8>)
    requires
        1 <= tag <= 16,
        wt <= 5,
    ensures
        read_key(key(tag, wt) + rest) == Some((tag, wt, key(tag, wt).len())),
        1 <= key(tag, wt).len() <= 10,
{
    lemma_read_u64_of(tag * 8 + wt, rest);
    assert((tag * 8 + wt) / 8 == tag);
    assert((tag * 8 + wt) % 8 == wt);
}

proof fn lemma_read_delimited_of(p: Seq<u8>, rest: Seq<u8>)
    requires
        p.len() <= u64::MAX,
    ensures
        read_delimited(varint(p.len()) + p + rest) == Some((p, varint(p.len()).len() + p.len())),
{
    let b = varint(p.len()) + p + rest;
    assert(b =~= varint(p.len()) + (p + rest));
    lemma_read_u64_of(p.len(), p + rest);
    let n = varint(p.len()).len();
    assert(b.subrange(n as int, (n + p.len()) as int) =~= p);
}

proof fn lemma_field_then_rest(f: Seq<u8>, rest: Seq<u8>, m: MessageView, m2: MessageView)
    requires
        f.len() >= 1,
        read_field(f + rest, m) == Some((m2, f.len())),
    ensures
        read_message_fields(f + rest, m) == read_message_fields(rest, m2),
{
    assert((f + rest).skip(f.len() as int) =~= rest);
}

proof fn lemma_string_field_read(tag: nat, s: Seq<char>, rest: Seq<u8>, m: MessageView)
    requires
        tag == 1 || tag == 4,
        s.len() > 0,
        encode_utf8(s).len() <= u64::MAX,
    ensures
        read_message_fields(string_field(tag, s) + rest, m) == read_message_fields(
            rest,
            if tag == 1 {
                MessageView { uuid: s, ..m }
            } else {
                MessageView { body: s, ..m }
            },
        ),
{
    let p = encode_utf8(s);
    let f = string_field(tag, s);
    let b = f + rest;
    let tail = varint(p.len()) + p + rest;
    assert(b =~= key(tag, 2) + tail);
    lemma_read_key_of(tag, 2, tail);
    assert(b.skip(key(tag, 2).len() as int) =~= tail);
    lemma_read_delimited_of(p, rest);
    let m2 = if tag == 1 {
        MessageView { uuid: s, ..m }
    } else {
        MessageView { body: s, ..m }
    };
    assert(read_field(b, m) == Some((m2, f.len())));
    lemma_field_then_rest(f, rest, m, m2);
}

proof fn lemma_number_field_read(tag: nat, v: nat, rest: Seq<u8>, m: MessageView)
    requires
        tag == 2 || tag == 5 || tag == 6,
        1 <= v <= u64::MAX,
    ensures
        read_message_fields(number_field(tag, v) + rest, m) == read_message_fields(
            rest,
            if tag == 2 {
                MessageView { kind: bits_i32(v), ..m }
            } else if tag == 5 {
                MessageView { ttl: bits_u32(v), ..m }
            } else {
                MessageView { checksum: v as u64, ..m }
            },
        ),
{
    let f = number_field(tag, v);
    let b = f + rest;
    let tail = varint(v) + rest;
    assert(b =~= key(tag, 0) + tail);
    lemma_read_key_of(tag, 0, tail);
    assert(b.skip(key(tag, 0).len() as int) =~= tail);
    lemma_read_u64_of(v, rest);
    let m2 = if tag == 2 {
        MessageView { kind: bits_i32(v), ..m }
    } else if tag == 5 {
        MessageView { ttl: bits_u32(v), ..m }
    } else {
        MessageView { checksum: v as u64, ..m }
    };
    assert(read_field(b, m) == Some((m2, f.len())));
    lemma_field_then_rest(f, rest, m, m2);
}

proof fn lemma_timestamp_number_read(tag: nat, v: nat, rest: Seq<u8>, t: (i64, i32))
    requires
        tag == 1 || tag == 2,
        1 <= v <= u64::MAX,
    ensures
        read_timestamp_fields(number_field(tag, v) + rest, t) == read_timestamp_fields(
            rest,
            if tag == 1 {
                (bits_i64(v), t.1)
            } else {
                (t.0, bits_i32(v))
            },
        ),
        number_field(tag, v).len() <= 20,
{
    let f = number_field(tag, v);
    let b = f + rest;
    let tail = varint(v) + rest;
    assert(b =~= key(tag, 0) + tail);
    lemma_read_key_of(tag, 0, tail);
    let n = key(tag, 0).len();
    assert(b.skip(n as int) =~= tail);
    lemma_read_u64_of(v, rest);
    assert(b.skip((n + varint(v).len()) as int) =~= rest);
}

proof fn lemma_i64_bits_zero(v: i64)
    ensures
        (i64_bits(v) == 0) == (v == 0),
        i64_bits(v) <= u64::MAX,
{
}

proof fn lemma_timestamp_roundtrip(t: (i64, i32))
    ensures
        read_timestamp_fields(encode_timestamp(t), (0i64, 0i32)) == Some(t),
        encode_timestamp(t).len() <= 40,
{
    let a = i64_bits(t.0);
    let c = i64_bits(t.1 as i64);
    lemma_i64_bits_zero(t.0);
    lemma_i64_bits_zero(t.1 as i64);
    lemma_i64_bits_roundtrip(t.0);
    lemma_i32_bits_roundtrip(t.1);
    let f1 = number_field(1, a);
    let f2 = number_field(2, c);
    let e: Seq<u8> = Seq::empty();
    assert(encode_timestamp(t) == f1 + f2);
    assert(f2 + e =~= f2);
    let mid = if a == 0 {
        (0i64, 0i32)
    } else {
        (t.0, 0i32)
    };
    if a == 0 {
        assert(f1 + f2 =~= f2);
    } else {
        lemma_timestamp_number_read(1, a, f2, (0i64, 0i32));
    }
    assert(read_timestamp_fields(f1 + f2, (0i64, 0i32)) == read_timestamp_fields(f2, mid));
    if c != 0 {
        lemma_timestamp_number_read(2, c, e, mid);
    }
    assert(read_timestamp_fields(f2, mid) == read_timestamp_fields(e, t));
}

proof fn lemma_timestamp_field_read(t: (i64, i32), rest: Seq<u8>, m: MessageView)
    requires
        m.timestamp is None,
    ensures
        read_message_fields(bytes_field(3, encode_timestamp(t)) + rest, m) == read_message_fields(
            rest,
            MessageView { timestamp: Some(t), ..m },
        ),
{
    let p = encode_timestamp(t);
    lemma_timestamp_roundtrip(t);
    let f = bytes_field(3, p);
    let b = f + rest;
    let tail = varint(p.len()) + p + rest;
    assert(b =~= key(3, 2) + tail);
    lemma_read_key_of(3, 2, tail);
    assert(b.skip(key(3, 2).len() as int) =~= tail);
    lemma_read_delimited_of(p, rest);
    let m2 = MessageView { timestamp: Some(t), ..m };
    assert(read_field(b, m) == Some((m2, f.len())));
    lemma_field_then_rest(f, rest, m, m2);
}

/// Reading the bytes a message is written as gives the message back, for
/// every message whose UUID and body each take fewer than 2^64 bytes.
#[verifier::rlimit(60)]
pub proof fn lemma_decode_encode(m: MessageView)
    requires
        encode_utf8(m.uuid).len() <= u64::MAX,
        encode_utf8(m.body).len() <= u64::MAX,
    ensures
        decode_message(encode_message(m)) == Some(m),
{
    let s1 = string_field(1, m.uuid);
    let s2 = number_field(2, i64_bits(m.kind as i64));
    let s3 = match m.timestamp {
        Some(t) => bytes_field(3, encode_timestamp(t)),
        None => Seq::empty(),
    };
    let s4 = string_field(4, m.body);
    let s5 = number_field(5, m.ttl as nat);
    let s6 = number_field(6, m.checksum as nat);
    let e: Seq<u8> = Seq::empty();
    let t6 = s6 + e;
    let t5 = s5 + t6;
    let t4 = s4 + t5;
    let t3 = s3 + t4;
    let t2 = s2 + t3;
    let t1 = s1 + t2;
    assert(encode_message(m) =~= t1);
    let m0 = default_message();
    let m1 = MessageView { uuid: m.uuid, ..m0 };
    let m2 = MessageView { kind: m.kind, ..m1 };
    let m3 = MessageView { timestamp: m.timestamp, ..m2 };
    let m4 = MessageView { body: m.body, ..m3 };
    let m5 = MessageView { ttl: m.ttl, ..m4 };
    let m6 = MessageView { checksum: m.checksum, ..m5 };
    assert(m6 == m);
    assert(read_message_fields(t1, m0) == read_message_fields(t2, m1)) by {
        if m.uuid.len() > 0 {
            lemma_string_field_read(1, m.uuid, t2, m0);
        } else {
            assert(m.uuid =~= m0.uuid);
            assert(t1 =~= t2);
        }
    }
    assert(read_message_fields(t2, m1) == read_message_fields(t3, m2)) by {
        lemma_i64_bits_zero(m.kind as i64);
        lemma_i32_bits_roundtrip(m.kind);
        if m.kind != 0 {
            lemma_number_field_read(2, i64_bits(m.kind as i64), t3, m1);
        } else {
            assert(t2 =~= t3);
        }
    }
    assert(read_message_fields(t3, m2) == read_message_fields(t4, m3)) by {
        match m.timestamp {
            Some(t) => {
                lemma_timestamp_field_read(t, t4, m2);
            },
            None => {
                assert(t3 =~= t4);
            },
        }
    }
    assert(read_message_fields(t4, m3) == read_message_fields(t5, m4)) by {
        if m.body.len() > 0 {
            lemma_string_field_read(4, m.body, t5, m3);
        } else {
            assert(m.body =~= m3.body);
            assert(t4 =~= t5);
        }
    }
    assert(read_message_fields(t5, m4) == read_message_fields(t6, m5)) by {
        if m.ttl != 0 {
            lemma_number_field_read(5, m.ttl as nat, t6, m4);
        } else {
            assert(t5 =~= t6);
        }
    }
    assert(read_message_fields(t6, m5) == read_message_fields(e, m6)) by {
        if m.checksum != 0 {
            lemma_number_field_read(6, m.checksum as nat, e, m5);
        } else {
            assert(t6 =~= e);
        }
    }
}

/// The string that UTF-8 bytes encode, if they are valid UTF-8.
///
/// Trusted: calls `std::str::from_utf8`, which fails exactly when the bytes
/// are not valid UTF-8 and otherwise returns the string they encode.
#[verifier::external_body]
fn str_from_utf8(bytes: &[u8]) -> (r: Option<&str>)
    ensures
        r is Some <==> valid_utf8(bytes@),
        r matches Some(s) ==> s@ == decode_utf8(bytes@),
{
    std::str::from_utf8(bytes).ok()
}

proof fn lemma_skip_skip<A>(s: Seq<A>, a: int, b: int)
    requires
        0 <= a,
        0 <= b,
        a + b <= s.len(),
    ensures
        s.skip(a).skip(b) == s.skip(a + b),
{
    assert(s.skip(a).skip(b) =~= s.skip(a + b));
}

fn read_key_at(b: &[u8], pos: usize) -> (r: Option<(u64, u64, usize)>)
    requires
        pos <= b@.len(),
    ensures
        r is None <==> read_key(b@.skip(pos as int)) is None,
        r matches Some((t, w, p)) ==> pos < p <= b@.len() && t <= u32::MAX && w <= 5 && read_key(
            b@.skip(pos as int),
        ) == Some((t as nat, w as nat, (p - pos) as nat)),
{
    match read_u64_at(b, pos) {
        Some((k, p)) => {
            if k <= 0xffff_ffff && k % 8 <= 5 && k / 8 >= 1 {
                Some((k / 8, k % 8, p))
            } else {
                None
            }
        },
        None => None,
    }
}

fn read_delimited_at(b: &[u8], pos: usize) -> (r: Option<(usize, usize)>)
    requires
        pos <= b@.len(),
    ensures
        r is Some <==> read_delimited(b@.skip(pos as int)) is Some,
        r matches Some((s, e)) ==> pos < s <= e <= b@.len() && read_delimited(b@.skip(pos as int)) == Some(
            (b@.subrange(s as int, e as int), (e - pos) as nat),
        ),
{
    match read_u64_at(b, pos) {
        Some((len, p)) => {
            if len <= (b.len() - p) as u64 {
                let e = p + len as usize;
                proof {
                    assert(b@.skip(pos as int).subrange((p - pos) as int, (e - pos) as int) =~= b@.subrange(
                        p as int,
                        e as int,
                    ));
                }
                Some((p, e))
            } else {
                None
            }
        },
        None => None,
    }
}

fn skip_field_at(wire_type: u64, tag: u64, b: &[u8], pos: usize, depth: u32) -> (r: Option<usize>)
    requires
        pos <= b@.len(),
    ensures
        r is None <==> skip_field(wire_type as nat, tag as nat, b@.skip(pos as int), depth as nat) is None,
        r matches Some(p) ==> pos <= p <= b@.len() && skip_field(
            wire_type as nat,
            tag as nat,
            b@.skip(pos as int),
            depth as nat,
        ) == Some((p - pos) as nat),
    decreases b@.len() - pos, 1nat,
{
    if depth == 0 {
        None
    } else if wire_type == 0 {
        match read_u64_at(b, pos) {
            Some((_, p)) => Some(p),
            None => None,
        }
    } else if wire_type == 1 {
        if b.len() - pos >= 8 {
            Some(pos + 8)
        } else {
            None
        }
    } else if wire_type == 2 {
        match read_delimited_at(b, pos) {
            Some((_, e)) => Some(e),
            None => None,
        }
    } else if wire_type == 3 {
        skip_group_at(tag, b, pos, depth)
    } else if wire_type == 5 {
        if b.len() - pos >= 4 {
            Some(pos + 4)
        } else {
            None
        }
    } else {
        None
    }
}

fn skip_group_at(tag: u64, b: &[u8], pos: usize, depth: u32) -> (r: Option<usize>)
    requires
        pos <= b@.len(),
        depth > 0,
    ensures
        r is None <==> skip_group(tag as nat, b@.skip(pos as int), depth as nat) is None,
        r matches Some(p) ==> pos <= p <= b@.len() && skip_group(tag as nat, b@.skip(pos as int), depth as nat)
            == Some((p - pos) as nat),
    decreases b@.len() - pos, 0nat,
{
    let ghost here = b@.skip(pos as int);
    let (t, w, p) = match read_key_at(b, pos) {
        Some(x) => x,
        None => {
            return None;
        },
    };
    proof {
        lemma_skip_skip(b@, pos as int, (p - pos) as int);
    }
    if w == 4 {
        if t == tag {
            return Some(p);
        } else {
            return None;
        }
    }
    match skip_field_at(w, t, b, p, depth - 1) {
        Some(q) => {
            proof {
                lemma_skip_skip(b@, pos as int, (q - pos) as int);
            }
            match skip_group_at(tag, b, q, depth) {
                Some(e) => Some(e),
                None => None,
            }
        },
        None => None,
    }
}

fn read_timestamp(b: &[u8], t: Timestamp) -> (r: Option<Timestamp>)
    ensures
        r matches Some(u) ==> read_timestamp_fields(b@, (t.seconds, t.nanos)) == Some((u.seconds, u.nanos)),
        r is None <==> read_timestamp_fields(b@, (t.seconds, t.nanos)) is None,
{
    let mut pos: usize = 0;
    let mut cur = t;
    assert(b@.skip(0) =~= b@);
    while pos < b.len()
        invariant
            pos <= b@.len(),
            read_timestamp_fields(b@, (t.seconds, t.nanos)) == read_timestamp_fields(
                b@.skip(pos as int),
                (cur.seconds, cur.nanos),
            ),
        decreases b@.len() - pos,
    {
        let ghost here = b@.skip(pos as int);
        let (tag, wt, p) = match read_key_at(b, pos) {
            Some(x) => x,
            None => {
                return None;
            },
        };
        proof {
            lemma_skip_skip(b@, pos as int, (p - pos) as int);
        }
        let next: usize;
        if tag == 1 || tag == 2 {
            if wt != 0 {
                return None;
            }
            match read_u64_at(b, p) {
                Some((v, q)) => {
                    if tag == 1 {
                        cur = Timestamp { seconds: bits_to_i64(v), nanos: cur.nanos };
                    } else {
                        cur = Timestamp { seconds: cur.seconds, nanos: bits_to_i32(v) };
                    }
                    next = q;
                },
                None => {
                    return None;
                },
            }
        } else {
            match skip_field_at(wt, tag, b, p, RECURSION_LIMIT - 1) {
                Some(q) => {
                    next = q;
                },
                None => {
                    return None;
                },
            }
        }
        proof {
            lemma_skip_skip(b@, pos as int, (next - pos) as int);
        }
        pos = next;
    }
    Some(cur)
}

/// Reads one field at `pos` into `m`: the position after the field, or
/// `None` where the bytes there are no valid field.
fn read_field_at(b: &[u8], pos: usize, m: &mut MulticastMessage) -> (r: Option<usize>)
    requires
        pos < b@.len(),
    ensures
        r is None <==> read_field(b@.skip(pos as int), old(m)@) is None,
        r matches Some(q) ==> pos < q <= b@.len() && read_field(b@.skip(pos as int), old(m)@) == Some(
            (final(m)@, (q - pos) as nat),
        ),
{
    let (tag, wt, p) = match read_key_at(b, pos) {
        Some(x) => x,
        None => {
            return None;
        },
    };
    proof {
        lemma_skip_skip(b@, pos as int, (p - pos) as int);
    }
    if tag == 1 || tag == 4 {
        if wt != 2 {
            return None;
        }
        match read_delimited_at(b, p) {
            Some((s, e)) => {
                let payload = vstd::slice::slice_subrange(b, s, e);
                match str_from_utf8(payload) {
                    Some(text) => {
                        if tag == 1 {
                            m.uuid = text.to_owned();
                        } else {
                            m.body = text.to_owned();
                        }
                        Some(e)
                    },
                    None => None,
                }
            },
            None => None,
        }
    } else if tag == 3 {
        if wt != 2 {
            return None;
        }
        match read_delimited_at(b, p) {
            Some((s, e)) => {
                let payload = vstd::slice::slice_subrange(b, s, e);
                let start = match m.timestamp {
                    Some(t) => t,
                    None => Timestamp { seconds: 0, nanos: 0 },
                };
                match read_timestamp(payload, start) {
                    Some(t) => {
                        m.timestamp = Some(t);
                        Some(e)
                    },
                    None => None,
                }
            },
            None => None,
        }
    } else if tag == 2 || tag == 5 || tag == 6 {
        if wt != 0 {
            return None;
        }
        match read_u64_at(b, p) {
            Some((v, q)) => {
                if tag == 2 {
                    m.kind = bits_to_i32(v);
                } else if tag == 5 {
                    m.ttl = bits_to_u32(v);
                } else {
                    m.checksum = v;
                }
                Some(q)
            },
            None => None,
        }
    } else {
        skip_field_at(wt, tag, b, p, RECURSION_LIMIT)
    }
}

impl MulticastMessage {
    /// The message that bytes in the wire format stand for; an error when
    /// they do not stand for one.
    pub fn from_bytes(bytes: &[u8]) -> (r: Result<Self, std::io::Error>)
        ensures
            r is Ok <==> decode_message(bytes@) is Some,
            r matches Ok(m) ==> decode_message(bytes@) == Some(m@),
    {
        let mut m = MulticastMessage {
            uuid: String::new(),
            kind: 0,
            timestamp: None,
            body: String::new(),
            ttl: 0,
            checksum: 0,
        };
        let b = bytes;
        let mut pos: usize = 0;
        assert(b@.skip(0) =~= b@);
        assert(m@ == default_message());
        while pos < b.len()
            invariant
                pos <= b@.len(),
                b@ == bytes@,
                decode_message(b@) == read_message_fields(b@.skip(pos as int), m@),
            decreases b@.len() - pos,
        {
            let ghost here = b@.skip(pos as int);
            let ghost before = m@;
            assert(here.len() > 0);
            match read_field_at(b, pos, &mut m) {
                Some(next) => {
                    proof {
                        lemma_skip_skip(b@, pos as int, (next - pos) as int);
                    }
                    pos = next;
                },
                None => {
                    assert(read_message_fields(here, before) is None);
                    return Err(build_error("Failed to decode message: invalid wire data."));
                },
            }
        }
        Ok(m)
    }
}

} // verus!
