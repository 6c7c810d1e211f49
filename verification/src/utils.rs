//! Buffer helpers shared by the packet builders: writing variable-length
//! integers and length-prefixed UTF-8 strings, and reading packet ids.

use vstd::prelude::*;
use vstd::string::StrSliceExecFns;
use crate::varint::{VarInt, VarIntDecodeError, varint_bytes, varint_value, varint_ends_at, trunc32};

verus! {

/// The wire form of a string: its UTF-8 byte length as a variable-length
/// integer, then the UTF-8 bytes themselves.
pub open spec fn string_bytes(s: Seq<char>) -> Seq<u8> {
    varint_bytes(vstd::utf8::encode_utf8(s).len() as u32) + vstd::utf8::encode_utf8(s)
}

/// Read the variable-length integer at the start of a packet's bytes.
pub fn read_packet_id(buffer: &[u8]) -> (r: Result<VarInt, VarIntDecodeError>)
    ensures
        (r is Ok) <==> exists|n: int| varint_ends_at(buffer@, n),
        r matches Ok(v) ==> {
            &&& v.wf()
            &&& exists|n: int| #[trigger] varint_ends_at(buffer@, n)
                && v.value as u32 == trunc32(varint_value(buffer@.take(n + 1)))
        },
        r matches Err(e) ==> e == (if buffer@.len() < 5 {
            VarIntDecodeError::OutOfRange
        } else {
            VarIntDecodeError::TooLarge
        }),
{
    VarInt::read(buffer)
}

/// Append the encoding of a 32-bit value to a buffer.
pub fn write_ivar(buffer: &mut Vec<u8>, id: i32)
    ensures
        final(buffer)@ == old(buffer)@ + varint_bytes(id as u32),
{
    let mut data = VarInt::new(id).as_bytes();
    buffer.append(&mut data);
}

/// Append a length-prefixed UTF-8 string to a buffer.
pub fn write_utf8_string(buffer: &mut Vec<u8>, text: String)
    requires
        vstd::utf8::encode_utf8(text@).len() <= 0x7fff_ffff,
    ensures
        final(buffer)@ == old(buffer)@ + string_bytes(text@),
{
    let mut data: Vec<u8> = text.as_str().as_bytes_vec();
    let mut prefix = VarInt::new(data.len() as i32).as_bytes();
    buffer.append(&mut prefix);
    buffer.append(&mut data);
    assert(buffer@ =~= old(buffer)@ + string_bytes(text@));
}

/// Relies on String::push: appends the given character to the string.
#[verifier::external_body]
fn push_char(s: &mut String, c: char)
    ensures
        final(s)@ == old(s)@.push(c),
{
    s.push(c);
}

/// Read a buffer as text, one character per byte, each byte taken as the
/// character with its code point.
pub fn convert_buf_to_string(buff: &[u8]) -> (r: String)
    ensures
        r@ == buff@.map(|_j: int, b: u8| b as char),
{
    let ghost chars = buff@.map(|_j: int, b: u8| b as char);
    let mut constructed: String = String::new();
    let mut i: usize = 0;
    assert(constructed@ =~= chars.take(0));
    while i < buff.len()
        invariant
            0 <= i <= buff@.len(),
            constructed@ == buff@.map(|_j: int, b: u8| b as char).take(i as int),
        decreases buff@.len() - i,
    {
        let b = buff[i];
        push_char(&mut constructed, b as char);
        assert(constructed@ =~= buff@.map(|_j: int, b: u8| b as char).take(i + 1));
        i = i + 1;
    }
    assert(constructed@ =~= buff@.map(|_j: int, b: u8| b as char));
    constructed
}

} // verus!
