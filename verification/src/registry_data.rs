//! The registry-data packet: a named registry and its entries, serialized in
//! exactly the order given, each entry an id, a payload flag, and an optional
//! opaque payload produced by an outside serializer.

use vstd::prelude::*;
use crate::utils::{string_bytes, write_ivar, write_utf8_string};
use crate::varint::{VarInt, lemma_varint_round_trip, varint_bytes};

verus! {

/// One registry entry: an id, and optionally an opaque serialized payload.
pub struct RegistryEntry {
    pub entry_id: String,
    pub has_data: bool,
    pub data: Option<Vec<u8>>,
}

impl RegistryEntry {
    /// The payload is present exactly when the flag says so.
    pub open spec fn wf(self) -> bool {
        self.has_data <==> self.data is Some
    }

    /// The wire form of one entry: its id as a length-prefixed string, one
    /// payload flag byte, and the payload bytes when present.
    pub open spec fn spec_bytes(self) -> Seq<u8> {
        string_bytes(self.entry_id@)
            + (if self.has_data { seq![0x01u8] } else { seq![0x00u8] })
            + (match self.data { Some(d) => d@, None => Seq::<u8>::empty() })
    }

    /// Serialize one entry.
    pub fn as_bytes(&self) -> (r: Vec<u8>)
        requires
            vstd::utf8::encode_utf8(self.entry_id@).len() <= 0x7fff_ffff,
        ensures
            r@ == self.spec_bytes(),
    {
        let mut buff: Vec<u8> = Vec::new();
        write_utf8_string(&mut buff, self.entry_id.clone());
        if self.has_data {
            buff.push(0x01);
        } else {
            buff.push(0x00);
        }
        match &self.data {
            Some(data) => {
                buff.extend_from_slice(data.as_slice());
            },
            None => {},
        }
        assert(buff@ =~= self.spec_bytes());
        buff
    }
}

/// The wire form of a run of entries, in order.
pub open spec fn entries_bytes(entries: Seq<RegistryEntry>) -> Seq<u8>
    decreases entries.len(),
{
    if entries.len() == 0 {
        Seq::empty()
    } else {
        entries_bytes(entries.drop_last()) + entries.last().spec_bytes()
    }
}

/// The whole registry-data packet: packet id 0x07, the registry id, the entry
/// count, and every entry in the order given, all behind a length prefix.
pub open spec fn registry_packet_bytes(registry_id: Seq<char>, entries: Seq<RegistryEntry>) -> Seq<u8> {
    let inner = varint_bytes(0x07) + string_bytes(registry_id)
        + varint_bytes(entries.len() as u32) + entries_bytes(entries);
    varint_bytes(inner.len() as u32) + inner
}

/// Build the registry-data packet for a named registry. Entries are emitted
/// in the order supplied: no deduplication, no sorting.
pub fn construct_registry_packet(registry_id: String, entries: Vec<RegistryEntry>) -> (r: Vec<u8>)
    requires
        forall|i: int| 0 <= i < entries@.len()
            ==> vstd::utf8::encode_utf8((#[trigger] entries@[i]).entry_id@).len() <= 0x7fff_ffff,
        entries@.len() <= 0x7fff_ffff,
        vstd::utf8::encode_utf8(registry_id@).len() + entries_bytes(entries@).len() <= 0x7fff_0000,
    ensures
        r@ == registry_packet_bytes(registry_id@, entries@),
{
    let ghost rid = registry_id@;
    let mut buffer: Vec<u8> = Vec::new();
    write_ivar(&mut buffer, 0x07);
    write_utf8_string(&mut buffer, registry_id);
    write_ivar(&mut buffer, entries.len() as i32);
    let ghost prefix = buffer@;

    let mut i: usize = 0;
    assert(entries_bytes(entries@.take(0)) =~= Seq::<u8>::empty());
    assert(buffer@ =~= prefix + entries_bytes(entries@.take(0)));
    while i < entries.len()
        invariant
            0 <= i <= entries@.len(),
            buffer@ == prefix + entries_bytes(entries@.take(i as int)),
            forall|k: int| 0 <= k < entries@.len()
                ==> vstd::utf8::encode_utf8((#[trigger] entries@[k]).entry_id@).len() <= 0x7fff_ffff,
        decreases entries@.len() - i,
    {
        let mut entry_bytes = entries[i].as_bytes();
        buffer.append(&mut entry_bytes);
        proof {
            assert(entries@.take(i + 1).drop_last() =~= entries@.take(i as int));
            assert(entries@.take(i + 1).last() == entries@[i as int]);
            assert(buffer@ =~= prefix + entries_bytes(entries@.take(i + 1)));
        }
        i = i + 1;
    }
    assert(entries@.take(entries@.len() as int) =~= entries@);

    proof {
        lemma_varint_round_trip(0x07);
        lemma_varint_round_trip(entries@.len() as u32);
        lemma_varint_round_trip(vstd::utf8::encode_utf8(rid).len() as u32);
    }
    let mut framed = VarInt::new(buffer.len() as i32).as_bytes();
    framed.append(&mut buffer);
    assert(framed@ =~= registry_packet_bytes(rid, entries@));
    framed
}

} // verus!
