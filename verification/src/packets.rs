//! Packet payload parsing and response frame building: big-endian UUID
//! handling, the login start parser, the login success and status response
//! frames, and the frame layer that cuts discrete frames out of an
//! accumulating stream buffer.

use vstd::prelude::*;
use vstd::arithmetic::div_mod::lemma_div_denominator;
use vstd::slice::slice_subrange;
use crate::utils::{string_bytes, write_ivar, write_utf8_string};
use crate::varint::{
    VarInt, VarIntDecodeError, lemma_varint_round_trip, read_varint_prefix, trunc32,
    varint_bytes, varint_ends_at, varint_value,
};

verus! {

/// The value carried by a byte sequence read as one big-endian integer.
pub open spec fn be_value(s: Seq<u8>) -> int
    decreases s.len(),
{
    if s.len() == 0 {
        0
    } else {
        0x100 * be_value(s.drop_last()) + s.last()
    }
}

/// Powers of 256, the weight of each byte.
pub open spec fn pow256(n: nat) -> int
    decreases n,
{
    if n == 0 {
        1
    } else {
        0x100 * pow256((n - 1) as nat)
    }
}

/// The big-endian bytes of the low `len` bytes of a value.
pub open spec fn be_bytes(v: int, len: nat) -> Seq<u8>
    decreases len,
{
    if len == 0 {
        Seq::empty()
    } else {
        be_bytes(v / 0x100, (len - 1) as nat).push((v % 0x100) as u8)
    }
}

/// A big-endian read stays below the weight of one more byte.
pub proof fn lemma_be_value_bound(s: Seq<u8>)
    ensures
        0 <= be_value(s) < pow256(s.len()),
    decreases s.len(),
{
    if s.len() > 0 {
        lemma_be_value_bound(s.drop_last());
        assert(pow256(s.len()) == 0x100 * pow256((s.len() - 1) as nat));
    }
}

/// The weights of the first seventeen bytes, written out.
proof fn lemma_pow256_bounds()
    ensures
        pow256(16) == 0x1_0000_0000_0000_0000_0000_0000_0000_0000,
    decreases 0nat,
{
    reveal_with_fuel(pow256, 17);
}

/// `be_bytes` always yields as many bytes as asked for.
pub proof fn lemma_be_bytes_len(v: int, len: nat)
    ensures
        be_bytes(v, len).len() == len,
    decreases len,
{
    if len > 0 {
        lemma_be_bytes_len(v / 0x100, (len - 1) as nat);
    }
}

/// Reading back the big-endian bytes of a value in range yields the value.
pub proof fn lemma_be_value_of_be_bytes(v: int, len: nat)
    requires
        0 <= v < pow256(len),
    ensures
        be_value(be_bytes(v, len)) == v,
    decreases len,
{
    if len == 0 {
    } else {
        let t = be_bytes(v / 0x100, (len - 1) as nat);
        lemma_be_bytes_len(v / 0x100, (len - 1) as nat);
        assert(be_bytes(v, len).drop_last() =~= t);
        assert(pow256(len) == 0x100 * pow256((len - 1) as nat));
        assert(v / 0x100 < pow256((len - 1) as nat)) by (nonlinear_arith)
            requires 0 <= v < 0x100 * pow256((len - 1) as nat);
        lemma_be_value_of_be_bytes(v / 0x100, (len - 1) as nat);
        assert(be_value(be_bytes(v, len)) == 0x100 * (v / 0x100) + v % 0x100);
    }
}

/// One more leading byte carries the next power-of-256 group of the value.
proof fn lemma_be_bytes_prepend(v: int, len: nat)
    requires
        v >= 0,
    ensures
        be_bytes(v, len + 1) =~= seq![((v / pow256(len)) % 0x100) as u8] + be_bytes(v, len),
    decreases len,
{
    if len == 0 {
        assert(be_bytes(v / 0x100, 0) =~= Seq::<u8>::empty());
        assert(be_bytes(v, 1) =~= seq![(v % 0x100) as u8]);
        assert(be_bytes(v, 0) =~= Seq::<u8>::empty());
        assert(pow256(0) == 1 && v / 1 == v);
    } else {
        lemma_be_bytes_prepend(v / 0x100, (len - 1) as nat);
        lemma_pow256_pos((len - 1) as nat);
        lemma_div_denominator(v, 0x100, pow256((len - 1) as nat));
        assert(0x100 * pow256((len - 1) as nat) == pow256(len));
        assert((v / 0x100) / pow256((len - 1) as nat) == v / pow256(len));
    }
}

/// Every byte weight is positive.
proof fn lemma_pow256_pos(n: nat)
    ensures
        0 < pow256(n),
    decreases n,
{
    if n > 0 {
        lemma_pow256_pos((n - 1) as nat);
    }
}

/// Read sixteen bytes as one big-endian 128-bit value.
pub fn u128_from_be(bytes: &[u8]) -> (r: u128)
    requires
        bytes@.len() == 16,
    ensures
        r == be_value(bytes@),
{
    proof {
        lemma_pow256_bounds();
    }
    let mut val: u128 = 0;
    let mut i: usize = 0;
    assert(bytes@.take(0) =~= Seq::<u8>::empty());
    while i < 16
        invariant
            0 <= i <= 16,
            bytes@.len() == 16,
            val == be_value(bytes@.take(i as int)),
            pow256(16) == 0x1_0000_0000_0000_0000_0000_0000_0000_0000,
        decreases 16 - i,
    {
        proof {
            lemma_be_value_bound(bytes@.take(i as int));
            lemma_pow256_increases(i as nat, 15);
            assert(bytes@.take(i + 1).drop_last() =~= bytes@.take(i as int));
            assert(0x100 * val < 0x100 * pow256(15)) by (nonlinear_arith)
                requires 0 <= val < pow256(15);
            assert(0x100 * pow256(15) == pow256(16));
        }
        val = 0x100 * val + (bytes[i] as u128);
        i = i + 1;
    }
    assert(bytes@.take(16) =~= bytes@);
    val
}

/// Byte weights grow with the position.
proof fn lemma_pow256_increases(m: nat, n: nat)
    requires
        m <= n,
    ensures
        0 < pow256(m) <= pow256(n),
    decreases n,
{
    if m == n {
        lemma_pow256_pos(m);
    } else {
        lemma_pow256_increases(m, (n - 1) as nat);
    }
}

/// Write a 128-bit value as sixteen big-endian bytes.
pub fn u128_to_be(v: u128) -> (r: Vec<u8>)
    ensures
        r@ == be_bytes(v as int, 16),
        r@.len() == 16,
        be_value(r@) == v,
{
    proof {
        lemma_pow256_bounds();
    }
    let mut out: Vec<u8> = Vec::new();
    let mut rem: u128 = v;
    let mut i: usize = 0;
    assert(out@ =~= be_bytes(v as int, 0));
    while i < 16
        invariant
            0 <= i <= 16,
            out@ == be_bytes(v as int, i as nat),
            out@.len() == i,
            rem == (v as int) / pow256(i as nat),
        decreases 16 - i,
    {
        proof {
            lemma_be_bytes_prepend(v as int, i as nat);
            lemma_pow256_pos(i as nat);
            lemma_div_denominator(v as int, pow256(i as nat), 0x100);
            assert(pow256(i as nat) * 0x100 == pow256((i + 1) as nat)) by (nonlinear_arith)
                requires pow256((i + 1) as nat) == 0x100 * pow256(i as nat);
        }
        out.insert(0, (rem % 0x100) as u8);
        assert(out@ =~= be_bytes(v as int, (i + 1) as nat));
        rem = rem / 0x100;
        i = i + 1;
    }
    proof {
        lemma_be_bytes_len(v as int, 16);
        lemma_be_value_of_be_bytes(v as int, 16);
    }
    out
}

/// A login start payload is complete when a name length terminates within the
/// buffer and leaves room for the name bytes and a sixteen-byte UUID.
pub open spec fn login_start_ok(s: Seq<u8>, n: int) -> bool {
    &&& varint_ends_at(s, n)
    &&& n + 1 + trunc32(varint_value(s.take(n + 1))) + 16 <= s.len()
}

/// The name bytes a login start payload carries: as many bytes after the
/// length prefix as it declares.
pub open spec fn login_name_bytes(s: Seq<u8>, n: int) -> Seq<u8> {
    let c = n + 1;
    let v = trunc32(varint_value(s.take(c))) as int;
    s.subrange(c, c + v)
}

/// The UUID a login start payload carries: the sixteen bytes after the name,
/// read big-endian.
pub open spec fn login_uuid_value(s: Seq<u8>, n: int) -> int {
    let c = n + 1;
    let v = trunc32(varint_value(s.take(c))) as int;
    be_value(s.subrange(c + v, c + v + 16))
}

/// A login start payload is acceptable when it is complete and its name bytes
/// are UTF-8.
pub open spec fn login_ok(s: Seq<u8>, n: int) -> bool {
    &&& login_start_ok(s, n)
    &&& vstd::utf8::valid_utf8(login_name_bytes(s, n))
}

/// Relies on str::from_utf8: it succeeds exactly on UTF-8 input, and the
/// returned string slice is the input bytes viewed as text.
#[verifier::external_body]
fn utf8_str(v: &[u8]) -> (r: Option<&str>)
    ensures
        (r is Some) <==> vstd::utf8::valid_utf8(v@),
        r matches Some(s) ==> vstd::utf8::encode_utf8(s@) == v@,
{
    match core::str::from_utf8(v) {
        Ok(s) => Some(s),
        Err(_) => None,
    }
}

/// Parse a login start payload: a length-prefixed UTF-8 player name followed
/// by a sixteen-byte big-endian UUID. A payload whose length prefix does not
/// terminate is malformed; one without room for the name and UUID is
/// truncated; one whose name bytes are not UTF-8 names no player. Either way
/// the packet is dropped and the connection lives on.
pub fn login(buffer: &[u8]) -> (r: Result<(String, u128), &'static str>)
    ensures
        (r is Ok) <==> exists|n: int| #[trigger] login_ok(buffer@, n),
        r matches Ok(p) ==> exists|n: int| {
            &&& #[trigger] login_ok(buffer@, n)
            &&& p.0@ == vstd::utf8::decode_utf8(login_name_bytes(buffer@, n))
            &&& p.1 == login_uuid_value(buffer@, n)
        },
        r matches Err(m) ==> {
            if !(exists|n: int| varint_ends_at(buffer@, n)) {
                m@ == "malformed login payload"@
            } else if !(exists|n: int| #[trigger] login_start_ok(buffer@, n)) {
                m@ == "truncated login payload"@
            } else {
                m@ == "invalid player name"@
            }
        },
{
    match read_varint_prefix(buffer) {
        Err(_) => {
            assert(forall|n: int| !(#[trigger] login_ok(buffer@, n)));
            Err("malformed login payload")
        },
        Ok((v, c)) => {
            if (c as u64) + (v as u64) + 16 <= (buffer.len() as u64) {
                let name_len = v as usize;
                let name_bytes = slice_subrange(buffer, c, c + name_len);
                assert(name_bytes@ == login_name_bytes(buffer@, c - 1));
                match utf8_str(name_bytes) {
                    Some(name_str) => {
                        let name = name_str.to_owned();
                        let uuid_bytes = slice_subrange(buffer, c + name_len, c + name_len + 16);
                        let uuid = u128_from_be(uuid_bytes);
                        proof {
                            vstd::utf8::encode_utf8_decode_utf8(name@);
                            assert(login_ok(buffer@, c - 1));
                            assert(name@ == vstd::utf8::decode_utf8(login_name_bytes(buffer@, c - 1)));
                            assert(uuid == login_uuid_value(buffer@, c - 1));
                        }
                        Ok((name, uuid))
                    },
                    None => {
                        assert(login_start_ok(buffer@, c - 1));
                        assert forall|n: int| !(#[trigger] login_ok(buffer@, n)) by {
                            if login_ok(buffer@, n) {
                                crate::varint::lemma_varint_ends_at_unique(buffer@, n, c - 1);
                            }
                        }
                        Err("invalid player name")
                    },
                }
            } else {
                assert forall|n: int| !(#[trigger] login_start_ok(buffer@, n)) by {
                    if login_start_ok(buffer@, n) {
                        crate::varint::lemma_varint_ends_at_unique(buffer@, n, c - 1);
                    }
                }
                assert(forall|n: int| !(#[trigger] login_ok(buffer@, n)));
                Err("truncated login payload")
            }
        },
    }
}

/// The login success frame for a player: packet id 0x02, the UUID big-endian,
/// the name length-prefixed, a zero property count, and the strict-enforcement
/// flag byte, all behind a length prefix.
pub open spec fn login_success_bytes(name: Seq<char>, uuid: u128) -> Seq<u8> {
    let inner = varint_bytes(0x02) + be_bytes(uuid as int, 16) + string_bytes(name)
        + varint_bytes(0) + seq![0x01u8];
    varint_bytes(inner.len() as u32) + inner
}

/// Build the login success frame answering a login start.
pub fn login_success(name: String, uuid: u128) -> (r: Vec<u8>)
    requires
        vstd::utf8::encode_utf8(name@).len() <= 0x7fff_ff00,
    ensures
        r@ == login_success_bytes(name@, uuid),
{
    let ghost name_chars = name@;
    let mut bytes: Vec<u8> = Vec::new();
    write_ivar(&mut bytes, 0x02);
    let mut uuid_bytes = u128_to_be(uuid);
    bytes.append(&mut uuid_bytes);
    write_utf8_string(&mut bytes, name);
    write_ivar(&mut bytes, 0x00);
    bytes.push(0x01);
    proof {
        lemma_varint_round_trip(0x02);
        lemma_varint_round_trip(0x00);
        lemma_varint_round_trip(vstd::utf8::encode_utf8(name_chars).len() as u32);
        assert(bytes@ =~= varint_bytes(0x02) + be_bytes(uuid as int, 16)
            + string_bytes(name_chars) + varint_bytes(0) + seq![0x01u8]);
    }
    let mut framed = VarInt::new(bytes.len() as i32).as_bytes();
    framed.append(&mut bytes);
    assert(framed@ =~= login_success_bytes(name_chars, uuid));
    framed
}

/// The status response frame: packet id 0x00 and the response text as a
/// length-prefixed string, all behind a length prefix.
pub open spec fn status_frame_bytes(response: Seq<char>) -> Seq<u8> {
    let inner = varint_bytes(0x00) + string_bytes(response);
    varint_bytes(inner.len() as u32) + inner
}

/// Build the frame carrying a status response.
pub fn status_response_frame(response: String) -> (r: Vec<u8>)
    requires
        vstd::utf8::encode_utf8(response@).len() <= 0x7fff_ff00,
    ensures
        r@ == status_frame_bytes(response@),
{
    let ghost response_chars = response@;
    let mut bytes: Vec<u8> = Vec::new();
    write_ivar(&mut bytes, 0x00);
    write_utf8_string(&mut bytes, response);
    proof {
        lemma_varint_round_trip(0x00);
        lemma_varint_round_trip(vstd::utf8::encode_utf8(response_chars).len() as u32);
        assert(bytes@ =~= varint_bytes(0x00) + string_bytes(response_chars));
    }
    let mut framed = VarInt::new(bytes.len() as i32).as_bytes();
    framed.append(&mut bytes);
    assert(framed@ =~= status_frame_bytes(response_chars));
    framed
}

/// What the frame layer makes of the bytes accumulated so far.
#[derive(Debug)]
pub enum FrameOutcome {
    /// A complete frame: its packet id and payload bytes, and how many bytes
    /// of the buffer it used up, length prefix included.
    Frame { body: Vec<u8>, consumed: usize },
    /// The buffer does not yet hold a whole frame; read more bytes first.
    NeedMore,
    /// A zero-length frame: the peer is closing the conversation.
    Close,
    /// The length prefix cannot be a frame length; fatal for the connection.
    Malformed,
}

/// What the frame layer owes for a given buffer: a complete frame is cut out
/// exactly, a short buffer asks for more bytes, a zero length closes, and a
/// length that cannot be satisfied is malformed.
pub open spec fn frame_outcome_matches(s: Seq<u8>, r: FrameOutcome) -> bool {
    if exists|n: int| varint_ends_at(s, n) {
        let n = choose|n: int| varint_ends_at(s, n);
        let len = trunc32(varint_value(s.take(n + 1))) as int;
        if len == 0 {
            r is Close
        } else if len >= 0x8000_0000 {
            r is Malformed
        } else if n + 1 + len > s.len() {
            r is NeedMore
        } else {
            match r {
                FrameOutcome::Frame { body, consumed } => {
                    &&& body@ == s.subrange(n + 1, n + 1 + len)
                    &&& consumed == n + 1 + len
                },
                _ => false,
            }
        }
    } else if s.len() < 5 {
        r is NeedMore
    } else {
        r is Malformed
    }
}

/// Drop the first `n` bytes of the accumulation buffer, once a frame that
/// long has been cut out of it.
pub fn discard_front(buffer: &mut Vec<u8>, n: usize)
    requires
        n <= old(buffer)@.len(),
    ensures
        final(buffer)@ == old(buffer)@.skip(n as int),
{
    let tail = buffer.split_off(n);
    *buffer = tail;
}

/// Wrap a packet id and payload into one frame: the byte count first, as a
/// variable-length integer, then the bytes themselves.
pub fn frame_bytes(body: &[u8]) -> (r: Vec<u8>)
    requires
        body@.len() <= 0x7fff_ffff,
    ensures
        r@ == varint_bytes(body@.len() as u32) + body@,
{
    let mut framed = VarInt::new(body.len() as i32).as_bytes();
    framed.extend_from_slice(body);
    framed
}

/// Try to cut one frame out of the accumulation buffer. The caller appends
/// newly read bytes to the buffer, calls this, and on a `Frame` outcome
/// removes `consumed` bytes from the front before trying again.
pub fn extract_frame(buffer: &[u8]) -> (r: FrameOutcome)
    ensures
        frame_outcome_matches(buffer@, r),
{
    match read_varint_prefix(buffer) {
        Err(e) => {
            match e {
                VarIntDecodeError::OutOfRange => FrameOutcome::NeedMore,
                _ => FrameOutcome::Malformed,
            }
        },
        Ok((v, c)) => {
            proof {
                let picked = choose|n: int| varint_ends_at(buffer@, n);
                crate::varint::lemma_varint_ends_at_unique(buffer@, picked, c - 1);
            }
            if v == 0 {
                FrameOutcome::Close
            } else if v >= 0x8000_0000 {
                FrameOutcome::Malformed
            } else if (c as u64) + (v as u64) > buffer.len() as u64 {
                FrameOutcome::NeedMore
            } else {
                let flen = v as usize;
                let body = vstd::slice::slice_to_vec(slice_subrange(buffer, c, c + flen));
                FrameOutcome::Frame { body, consumed: c + flen }
            }
        },
    }
}

} // verus!
