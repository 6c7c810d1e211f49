//! Variable-length integer codec: a 32-bit value is carried in one to five
//! bytes, seven bits per byte in little-endian group order, with the high bit
//! of a byte set when another byte follows.

use vstd::prelude::*;

verus! {

/// A byte whose high bit is set announces that more bytes follow.
pub open spec fn has_continuation(b: u8) -> bool {
    b >= 0x80
}

/// The minimal encoding of a 32-bit value: low seven bits first, the
/// continuation bit set on every byte but the last.
pub open spec fn varint_bytes(v: u32) -> Seq<u8>
    decreases v,
{
    if v < 0x80 {
        seq![v as u8]
    } else {
        seq![(v % 0x80 + 0x80) as u8] + varint_bytes(v / 0x80)
    }
}

/// The value carried by a byte sequence read as base-128 groups in
/// little-endian order, the continuation bits ignored.
pub open spec fn varint_value(s: Seq<u8>) -> int
    decreases s.len(),
{
    if s.len() == 0 {
        0
    } else {
        (s[0] % 0x80) + 0x80 * varint_value(s.drop_first())
    }
}

/// Powers of 128, the weight of each encoded group.
pub open spec fn pow128(n: nat) -> int
    decreases n,
{
    if n == 0 {
        1
    } else {
        0x80 * pow128((n - 1) as nat)
    }
}

/// What a decoder that accumulates into 32 bits keeps of a value.
pub open spec fn trunc32(v: int) -> u32 {
    (v % 0x1_0000_0000) as u32
}

/// Byte `n` ends the encoding that starts at byte 0 of `s`: it lies within
/// the five-byte limit, carries no continuation bit, and every byte before it
/// carries one.
pub open spec fn varint_ends_at(s: Seq<u8>, n: int) -> bool {
    &&& 0 <= n < 5
    &&& n < s.len()
    &&& !has_continuation(s[n])
    &&& forall|j: int| 0 <= j < n ==> has_continuation(#[trigger] s[j])
}

/// An encoding no encoder emits with fewer bytes: properly terminated, the
/// most significant group non-zero, and the value within 32 bits.
pub open spec fn is_minimal_varint(s: Seq<u8>) -> bool {
    &&& 1 <= s.len() <= 5
    &&& varint_ends_at(s, s.len() - 1)
    &&& (s.len() > 1 ==> s[s.len() - 1] != 0)
    &&& (s.len() == 5 ==> s[4] < 0x10)
}

#[derive(Debug, Clone, Copy, PartialEq, Eq, Structural)]
pub enum VarIntDecodeError {
    Incomplete,
    TooLarge,
    OutOfRange,
}

#[derive(Debug, Clone, Copy, PartialEq, Eq, Structural)]
pub enum VarIntEncodeError {
    Incomplete,
    TooLarge,
    OutOfRange,
}

/// A 32-bit value together with its encoding. The bytes are always the
/// minimal encoding of the value's unsigned bit pattern.
#[derive(Debug)]
pub struct VarInt {
    pub value: i32,
    pub bytes: Vec<u8>,
}

impl VarInt {
    /// The stored bytes are the minimal encoding of the stored value.
    pub open spec fn wf(self) -> bool {
        self.bytes@ == varint_bytes(self.value as u32)
    }

    pub fn new(value: i32) -> (r: Self)
        ensures
            r.value == value,
            r.wf(),
    {
        let mut x = VarInt { value, bytes: Vec::new() };
        let encoded = x.as_bytes();
        x.bytes = encoded;
        x
    }

    /// How many bytes the stored encoding takes up.
    pub fn length(&self) -> (r: usize)
        ensures
            r == self.bytes@.len(),
    {
        self.bytes.len()
    }

    /// Decode a variable-length integer from the start of `bytes`. On success
    /// the result holds the decoded value together with its minimal
    /// re-encoding. Fails with `OutOfRange` when the input runs out before a
    /// terminating byte, and with `TooLarge` when even the fifth byte carries
    /// the continuation bit; never reads past the fifth byte.
    pub fn read(bytes: &[u8]) -> (r: Result<Self, VarIntDecodeError>)
        ensures
            (r is Ok) <==> exists|n: int| varint_ends_at(bytes@, n),
            r matches Ok(v) ==> {
                &&& v.wf()
                &&& exists|n: int| #[trigger] varint_ends_at(bytes@, n)
                    && v.value as u32 == trunc32(varint_value(bytes@.take(n + 1)))
            },
            r matches Err(e) ==> e == (if bytes@.len() < 5 {
                VarIntDecodeError::OutOfRange
            } else {
                VarIntDecodeError::TooLarge
            }),
    {
        match read_varint_prefix(bytes) {
            Ok((v, used)) => {
                let value = #[verifier::truncate] (v as i32);
                assert((v as i32) as u32 == v) by (bit_vector);
                let r = VarInt::new(value);
                assert(varint_ends_at(bytes@, used - 1)
                    && r.value as u32 == trunc32(varint_value(bytes@.take(used - 1 + 1))));
                Ok(r)
            },
            Err(e) => Err(e),
        }
    }

    /// Encode the value's unsigned 32-bit bit pattern, low seven bits first.
    pub fn as_bytes(&self) -> (r: Vec<u8>)
        ensures
            r@ == varint_bytes(self.value as u32),
    {
        let ghost v0: u32 = self.value as u32;
        let mut value: u32 = #[verifier::truncate] (self.value as u32);
        let mut bytes: Vec<u8> = Vec::new();
        assert(varint_bytes(v0) =~= bytes@ + varint_bytes(value));
        loop
            invariant_except_break
                varint_bytes(v0) == bytes@ + varint_bytes(value),
            ensures
                bytes@ == varint_bytes(v0),
            decreases value,
        {
            let ghost pre: u32 = value;
            let b = (value % 0x80) as u8;
            value = value / 0x80;

            if value == 0 {
                assert(varint_bytes(pre) =~= seq![b]);
                bytes.push(b);
                assert(bytes@ =~= varint_bytes(v0));
                break;
            }
            assert(varint_bytes(pre) =~= seq![(pre % 0x80 + 0x80) as u8] + varint_bytes(pre / 0x80));
            bytes.push(b + 0x80);
            assert(varint_bytes(v0) =~= bytes@ + varint_bytes(value));
        }
        bytes
    }
}

/// Decode a variable-length integer at the start of `bytes`: the 32-bit value
/// and how many bytes it took. Fails with `OutOfRange` when the input runs out
/// before a terminating byte is found, and with `TooLarge` when even the fifth
/// byte carries the continuation bit. Never reads past the fifth byte.
pub fn read_varint_prefix(bytes: &[u8]) -> (r: Result<(u32, usize), VarIntDecodeError>)
    ensures
        (r is Ok) <==> exists|n: int| varint_ends_at(bytes@, n),
        r matches Ok(p) ==> {
            &&& 1 <= p.1 <= 5
            &&& varint_ends_at(bytes@, p.1 - 1)
            &&& p.0 == trunc32(varint_value(bytes@.take(p.1 as int)))
        },
        r matches Err(e) ==> e == (if bytes@.len() < 5 {
            VarIntDecodeError::OutOfRange
        } else {
            VarIntDecodeError::TooLarge
        }),
{
    let mut acc: u64 = 0;
    let mut mult: u64 = 1;
    let mut i: usize = 0;
    while i < 5
        invariant
            0 <= i <= 5,
            i <= bytes@.len(),
            forall|j: int| 0 <= j < i ==> has_continuation(#[trigger] bytes@[j]),
            acc == varint_value(bytes@.take(i as int)),
            mult == pow128(i as nat),
        decreases 5 - i,
    {
        if i >= bytes.len() {
            return Err(VarIntDecodeError::OutOfRange);
        }
        let b = bytes[i];
        proof {
            lemma_varint_value_snoc(bytes@, i as int);
            lemma_varint_value_bound(bytes@.take(i as int));
            lemma_pow128_bounds();
            assert(pow128(i as nat) <= pow128(4)) by {
                lemma_pow128_increases(i as nat, 4);
            }
        }
        if b < 0x80 {
            assert((b as u64) * mult <= 0x7f * 0x1000_0000) by (nonlinear_arith)
                requires b < 0x80 && 0 < mult <= 0x1000_0000;
            let v64 = acc + (b as u64) * mult;
            assert(v64 == varint_value(bytes@.take(i + 1)));
            let v = #[verifier::truncate] (v64 as u32);
            assert(v64 as u32 == (v64 % 0x1_0000_0000) as u32) by (bit_vector);
            assert(varint_ends_at(bytes@, i as int));
            return Ok((v, i + 1));
        }
        assert(((b % 0x80) as u64) * mult <= 0x7f * 0x1000_0000) by (nonlinear_arith)
            requires b % 0x80 < 0x80 && 0 < mult <= 0x1000_0000;
        acc = acc + ((b % 0x80) as u64) * mult;
        mult = mult * 0x80;
        i = i + 1;
    }
    Err(VarIntDecodeError::TooLarge)
}

/// The weights of the first groups, written out.
pub proof fn lemma_pow128_bounds()
    ensures
        pow128(0) == 1,
        pow128(1) == 0x80,
        pow128(2) == 0x4000,
        pow128(3) == 0x20_0000,
        pow128(4) == 0x1000_0000,
        pow128(5) == 0x8_0000_0000,
{
    reveal_with_fuel(pow128, 6);
}

/// Every group weight is positive.
pub proof fn lemma_pow128_pos(n: nat)
    ensures
        0 < pow128(n),
    decreases n,
{
    if n > 0 {
        lemma_pow128_pos((n - 1) as nat);
    }
}

/// Group weights grow with the position.
pub proof fn lemma_pow128_increases(m: nat, n: nat)
    requires
        m <= n,
    ensures
        0 < pow128(m) <= pow128(n),
    decreases n,
{
    if m == n {
        lemma_pow128_pos(m);
    } else {
        lemma_pow128_increases(m, (n - 1) as nat);
    }
}

/// Adding one more byte to a decode adds one more base-128 group.
pub proof fn lemma_varint_value_snoc(s: Seq<u8>, n: int)
    requires
        0 <= n < s.len(),
    ensures
        varint_value(s.take(n + 1)) == varint_value(s.take(n)) + (s[n] % 0x80) * pow128(n as nat),
    decreases n,
{
    if n == 0 {
        assert(s.take(1) =~= seq![s[0]]);
        assert(s.take(0) =~= Seq::<u8>::empty());
        assert(seq![s[0]].drop_first() =~= Seq::<u8>::empty());
        assert(varint_value(s.take(1)) == (s[0] % 0x80) + 0x80 * varint_value(Seq::<u8>::empty()));
        assert(pow128(0) == 1);
        assert((s[0] % 0x80) * 1 == s[0] % 0x80);
    } else {
        let d = s.drop_first();
        lemma_varint_value_snoc(d, n - 1);
        assert(s.take(n + 1).drop_first() =~= d.take(n));
        assert(s.take(n).drop_first() =~= d.take(n - 1));
        assert(s.take(n + 1)[0] == s[0] && s.take(n)[0] == s[0]);
        assert(d[n - 1] == s[n]);
        assert(varint_value(s.take(n + 1)) == (s[0] % 0x80) + 0x80 * varint_value(d.take(n)));
        assert(varint_value(s.take(n)) == (s[0] % 0x80) + 0x80 * varint_value(d.take(n - 1)));
        let a = varint_value(d.take(n - 1));
        let g = (s[n] % 0x80) as int;
        let p = pow128((n - 1) as nat);
        assert(varint_value(d.take(n)) == a + g * p);
        assert(0x80 * (a + g * p) == 0x80 * a + g * (0x80 * p)) by (nonlinear_arith);
        assert(pow128(n as nat) == 0x80 * pow128((n - 1) as nat));
        assert(varint_value(s.take(n + 1)) == varint_value(s.take(n)) + g * pow128(n as nat));
    }
}

/// A decode of `s` stays below the weight of the group after its last byte.
pub proof fn lemma_varint_value_bound(s: Seq<u8>)
    ensures
        0 <= varint_value(s) < pow128(s.len()),
    decreases s.len(),
{
    if s.len() == 0 {
    } else {
        let d = s.drop_first();
        lemma_varint_value_bound(d);
        assert(pow128(s.len()) == 0x80 * pow128(d.len()));
    }
}

/// At most one byte ends the encoding at the start of `s`.
pub proof fn lemma_varint_ends_at_unique(s: Seq<u8>, n1: int, n2: int)
    requires
        varint_ends_at(s, n1),
        varint_ends_at(s, n2),
    ensures
        n1 == n2,
{
    if n1 < n2 {
        assert(has_continuation(s[n1]));
    } else if n2 < n1 {
        assert(has_continuation(s[n2]));
    }
}

/// An encoding of a value below the weight of group `k` takes at most `k` bytes.
proof fn lemma_varint_bytes_len(v: u32, k: nat)
    requires
        1 <= k,
        v < pow128(k),
    ensures
        1 <= varint_bytes(v).len() <= k,
    decreases k,
{
    if v < 0x80 {
    } else {
        assert(pow128(k) == 0x80 * pow128((k - 1) as nat));
        assert(v / 0x80 < pow128((k - 1) as nat)) by (nonlinear_arith)
            requires v < 0x80 * pow128((k - 1) as nat);
        lemma_varint_bytes_len(v / 0x80, (k - 1) as nat);
    }
}

/// Law: the encoding of any 32-bit value is a minimal variable-length
/// integer, and decoding it yields the value back, the whole encoding
/// consumed.
pub proof fn lemma_varint_round_trip(v: u32)
    ensures
        is_minimal_varint(varint_bytes(v)),
        varint_ends_at(varint_bytes(v), varint_bytes(v).len() - 1),
        varint_value(varint_bytes(v)) == v,
        1 <= varint_bytes(v).len() <= 5,
    decreases v,
{
    lemma_pow128_bounds();
    lemma_varint_bytes_len(v, 5);
    let s = varint_bytes(v);
    if v < 0x80 {
        assert(s =~= seq![v as u8]);
        assert(s.drop_first() =~= Seq::<u8>::empty());
        assert(varint_value(s) == ((v as u8) % 0x80) + 0x80 * varint_value(s.drop_first()));
        assert(varint_value(s) == v);
    } else {
        let first = (v % 0x80 + 0x80) as u8;
        let rest = varint_bytes(v / 0x80);
        lemma_varint_round_trip(v / 0x80);
        assert(s =~= seq![first] + rest);
        assert(s.drop_first() =~= rest);
        assert(varint_value(s) == (first % 0x80) + 0x80 * varint_value(rest));
        assert(varint_value(s) == (v % 0x80) + 0x80 * (v / 0x80));

        // the terminating byte of the whole encoding is that of its tail
        assert forall|j: int| 0 <= j < s.len() - 1 implies has_continuation(#[trigger] s[j]) by {
            if j > 0 {
                assert(s[j] == rest[j - 1]);
                assert(varint_ends_at(rest, rest.len() - 1));
            }
        }
        assert(s[s.len() - 1] == rest[rest.len() - 1]);

        // the most significant group is non-zero
        if rest.len() == 1 {
            assert(rest[0] == (v / 0x80) as u8);
            assert(v / 0x80 >= 1);
        }

        // a fifth byte of 0x10 or more would put the value beyond 32 bits
        if s.len() == 5 {
            if s[4] >= 0x10 {
                lemma_varint_value_snoc(s, 4);
                assert(s.take(5) =~= s);
                lemma_varint_value_bound(s.take(4));
                assert((s[4] % 0x80) * pow128(4) >= 0x10 * 0x1000_0000) by (nonlinear_arith)
                    requires s[4] % 0x80 >= 0x10 && pow128(4) == 0x1000_0000;
                assert(varint_value(s) >= 0x1_0000_0000);
            }
        }
    }
}

/// A byte sequence whose last group is non-zero decodes to at least the
/// weight of that group.
proof fn lemma_varint_value_last_nonzero(s: Seq<u8>)
    requires
        s.len() >= 1,
        s[s.len() - 1] % 0x80 != 0,
    ensures
        varint_value(s) >= pow128((s.len() - 1) as nat),
    decreases s.len(),
{
    if s.len() == 1 {
        assert(s.drop_first() =~= Seq::<u8>::empty());
        assert(varint_value(s.drop_first()) == 0);
        assert(varint_value(s) == s[0] % 0x80);
        assert(pow128(0) == 1);
    } else {
        let d = s.drop_first();
        assert(d[d.len() - 1] == s[s.len() - 1]);
        lemma_varint_value_last_nonzero(d);
        assert(varint_value(s) == (s[0] % 0x80) + 0x80 * varint_value(d));
        assert(0x80 * varint_value(d) >= 0x80 * pow128((s.len() - 2) as nat));
        assert(pow128((s.len() - 1) as nat) == 0x80 * pow128((s.len() - 2) as nat));
    }
}

/// Law: a minimal encoding decodes to a 32-bit value whose re-encoding is the
/// same byte sequence.
pub proof fn lemma_varint_encode_of_decode(s: Seq<u8>)
    requires
        is_minimal_varint(s),
    ensures
        0 <= varint_value(s) < 0x1_0000_0000,
        varint_bytes(trunc32(varint_value(s))) == s,
    decreases s.len(),
{
    lemma_pow128_bounds();
    let v = varint_value(s);

    // the value fits in 32 bits
    if s.len() == 5 {
        lemma_varint_value_snoc(s, 4);
        assert(s.take(5) =~= s);
        lemma_varint_value_bound(s.take(4));
        assert((s[4] % 0x80) * pow128(4) <= 0xf * 0x1000_0000) by (nonlinear_arith)
            requires s[4] % 0x80 <= 0xf && pow128(4) == 0x1000_0000;
    } else {
        lemma_varint_value_bound(s);
        lemma_pow128_increases(s.len(), 4);
    }
    assert(0 <= v < 0x1_0000_0000) by {
        lemma_varint_value_bound(s);
    }
    assert(trunc32(v) == v);

    if s.len() == 1 {
        assert(v == s[0] % 0x80);
        assert(v == s[0]);
        assert(varint_bytes(trunc32(v)) =~= s);
    } else {
        let d = s.drop_first();
        assert forall|j: int| 0 <= j < d.len() - 1 implies has_continuation(#[trigger] d[j]) by {
            assert(d[j] == s[j + 1]);
            assert(varint_ends_at(s, s.len() - 1));
        }
        assert(d[d.len() - 1] == s[s.len() - 1]);
        assert(is_minimal_varint(d));
        lemma_varint_encode_of_decode(d);
        lemma_varint_value_last_nonzero(d);
        lemma_pow128_pos((d.len() - 1) as nat);
        assert(varint_value(d) >= 1);

        assert(v == (s[0] % 0x80) + 0x80 * varint_value(d));
        assert(v >= 0x80);
        assert(v % 0x80 == s[0] % 0x80 && v / 0x80 == varint_value(d)) by (nonlinear_arith)
            requires
                v == (s[0] % 0x80) + 0x80 * varint_value(d),
                0 <= s[0] % 0x80 < 0x80,
                varint_value(d) >= 0;
        let tv = trunc32(v);
        assert(varint_bytes(tv) == seq![(tv % 0x80 + 0x80) as u8] + varint_bytes(tv / 0x80));
        assert((tv % 0x80 + 0x80) as u8 == s[0]);
        assert((tv / 0x80) as int == varint_value(d));
        assert(tv / 0x80 == trunc32(varint_value(d)));
        assert(varint_bytes(tv) =~= s);
    }
}

} // verus!
