//! RPC (remote procedure call) packets.
//!
//! ```text
//! network_id   variable-length integer
//! blocked_by   variable-length integer
//! event_id     16 bits
//! position     nullable vector (presence bit + three 64-bit coordinates)
//! payload      bytes, with no length prefix
//! terminator   16 bits (0xC8B9)
//! ```
//!
//! The payload runs until the terminator, which is found from the end of
//! the stream: after it come 0 to 7 padding bits to the byte boundary, and
//! those bits may hold anything.
use crate::bits::{
    two_pow, bits_of_bytes, bits_of_uint, bits_to_bytes, bytes_of_bits,
    lemma_bits_bytes_padded, lemma_bits_of_bytes_len, lemma_bits_of_uint_len,
    lemma_bytes_bits_roundtrip, lemma_two_pow_facts, lemma_two_pow_values,
    lemma_uint_of_bits_append, lemma_uint_of_bits_bound, lemma_uint_roundtrip, pad_len,
    uint_at, uint_of_bit_range, uint_of_bits, zero_bits, BitReader, BitWriter, DecodeError,
    Decoded,
};
use crate::math::Vector3DBits;
use crate::nullable::Nullable;
use crate::packet::TERMINATOR;
use crate::version::{instance_decode, nonzero_at, SchemaError, Version};
use crate::wire::{lemma_split_at, BitAligned, BitCodec, Varint};
use vstd::prelude::*;

verus! {

/// Network identifier of a replicated object: a variable-length integer.
pub type NetworkId = Varint<u32>;

/// An RPC packet whose payload is kept as raw bytes.
#[derive(Debug, Clone, PartialEq)]
pub struct RawRpcPacket {
    /// Network ID of the target object (0 for a static, global event).
    pub network_id: Varint<u32>,
    /// Network ID of the object that blocks this event.
    pub blocked_by_network_id: Varint<u32>,
    /// Event identifier, specific to a game version.
    pub event_id: u16,
    /// Position for proximity-based events.
    pub position: Nullable<Vector3DBits>,
    /// Raw payload bytes.
    pub payload: Vec<u8>,
}

/// The view of a [`RawRpcPacket`].
pub struct RawRpcPacketView {
    pub network_id: Varint<u32>,
    pub blocked_by_network_id: Varint<u32>,
    pub event_id: u16,
    pub position: Option<Vector3DBits>,
    pub payload: Seq<u8>,
}

impl View for RawRpcPacket {
    type V = RawRpcPacketView;

    open spec fn view(&self) -> RawRpcPacketView {
        RawRpcPacketView {
            network_id: self.network_id,
            blocked_by_network_id: self.blocked_by_network_id,
            event_id: self.event_id,
            position: self.position@,
            payload: self.payload@,
        }
    }
}

/// Searching for the terminator ending `q` bits before the end of `s`, and
/// then closer to the start, up to `max` bits before the end. Gives the
/// position where the terminator starts.
pub open spec fn spec_find_terminator(s: Seq<bool>, q: nat, max: nat) -> Option<int>
    decreases max + 1 - q,
{
    if q > max {
        None
    } else if uint_at(s, s.len() - q - 16, 16) == TERMINATOR as nat {
        Some(s.len() - q - 16)
    } else {
        spec_find_terminator(s, q + 1, max)
    }
}

/// The body after the header: payload bits up to the terminator found
/// from the end of the stream. The whole stream is consumed.
pub open spec fn spec_rpc_body(s: Seq<bool>, p: int) -> Decoded<Seq<u8>> {
    let n = s.len() - p;
    if n < 16 {
        Decoded::Failed(DecodeError::RpcTooShort)
    } else {
        let max = if n - 16 < 7 {
            (n - 16) as nat
        } else {
            7nat
        };
        match spec_find_terminator(s, 0, max) {
            Some(start) => Decoded::Value(bytes_of_bits(s.subrange(p, start)), s.len() as int),
            None => Decoded::Failed(DecodeError::RpcTerminatorMissing),
        }
    }
}

/// Decoding an RPC packet at `pos`: the header fields, then the body.
pub open spec fn spec_decode_rpc(s: Seq<bool>, pos: int) -> Decoded<RawRpcPacketView> {
    Varint::<u32>::spec_decode(s, pos).and_then(
        |network_id: Varint<u32>, p1: int|
            Varint::<u32>::spec_decode(s, p1).and_then(
                |blocked: Varint<u32>, p2: int|
                    BitAligned::<u16>::spec_decode(s, p2).and_then(
                        |event_id: BitAligned<u16>, p3: int|
                            Nullable::<Vector3DBits>::spec_decode(s, p3).and_then(
                                |position: Option<Vector3DBits>, p4: int|
                                    spec_rpc_body(s, p4).map(
                                        |payload: Seq<u8>|
                                            RawRpcPacketView {
                                                network_id,
                                                blocked_by_network_id: blocked,
                                                event_id: event_id.0,
                                                position,
                                                payload,
                                            },
                                    ),
                            ),
                    ),
            ),
    )
}

/// The header fields of an RPC packet.
pub open spec fn spec_rpc_header(v: RawRpcPacketView) -> Seq<bool> {
    Varint::<u32>::spec_encode(v.network_id) + Varint::<u32>::spec_encode(v.blocked_by_network_id)
        + BitAligned::<u16>::spec_encode(BitAligned(v.event_id))
        + Nullable::<Vector3DBits>::spec_encode(v.position)
}

/// The encoding of an RPC packet: header, payload bytes, terminator.
pub open spec fn spec_encode_rpc(v: RawRpcPacketView) -> Seq<bool> {
    spec_rpc_header(v) + bits_of_bytes(v.payload) + bits_of_uint(TERMINATOR as nat, 16)
}

/// A window of 16 bits whose last bit is clear holds less than `2^15`.
proof fn lemma_top_bit_clear(w: Seq<bool>)
    requires
        w.len() == 16,
        !w[15],
    ensures
        uint_of_bits(w) < 0x8000,
{
    let a = w.take(15);
    let b = w.skip(15);
    assert(a + b =~= w);
    lemma_uint_of_bits_append(a, b);
    lemma_uint_of_bits_bound(a);
    assert(a.len() == 15);
    lemma_two_pow_values();
    assert(b.len() == 1);
    assert(b[0] == w[15]);
    assert(b.drop_first() =~= Seq::<bool>::empty());
    assert(uint_of_bits(b.drop_first()) == 0);
    assert(uint_of_bits(b) == 0);
    assert(two_pow(15) * 0 == 0);
    assert(uint_of_bits(w) == uint_of_bits(a));
}

/// The terminator search on a stream that ends with the terminator and
/// then `k` zero bits finds it.
proof fn lemma_find_terminator(s: Seq<bool>, q: nat, max: nat, k: nat)
    requires
        q <= k,
        k <= max,
        s.len() >= k + 16,
        s.subrange(s.len() - k - 16, s.len() - k) == bits_of_uint(TERMINATOR as nat, 16),
        forall|i: int| s.len() - k <= i < s.len() ==> !s[i],
    ensures
        spec_find_terminator(s, q, max) == Some(s.len() - k - 16),
    decreases k - q,
{
    lemma_two_pow_values();
    if q < k {
        let w = s.subrange(s.len() - q - 16, s.len() - q);
        assert(w[15] == s[s.len() - q - 1]);
        lemma_top_bit_clear(w);
        lemma_find_terminator(s, q + 1, max, k);
    } else {
        lemma_uint_roundtrip(TERMINATOR as nat, 16);
    }
}

/// Decoding the encoding of an RPC packet, followed by fewer than 8 zero
/// padding bits, gives the packet back and consumes the stream.
#[verifier::rlimit(40)]
#[verifier::spinoff_prover]
pub proof fn lemma_rpc_decode_encode(v: RawRpcPacketView, s: Seq<bool>, pos: int, k: nat)
    requires
        k < 8,
        0 <= pos,
        s.len() == pos + spec_encode_rpc(v).len() + k,
        s.subrange(pos, pos + spec_encode_rpc(v).len()) == spec_encode_rpc(v),
        forall|i: int| s.len() - k <= i < s.len() ==> !s[i],
    ensures
        spec_decode_rpc(s, pos) == Decoded::Value(v, s.len() as int),
{
    let e0 = Varint::<u32>::spec_encode(v.network_id);
    let e1 = Varint::<u32>::spec_encode(v.blocked_by_network_id);
    let e2 = BitAligned::<u16>::spec_encode(BitAligned(v.event_id));
    let e3 = Nullable::<Vector3DBits>::spec_encode(v.position);
    let pl = bits_of_bytes(v.payload);
    let t = bits_of_uint(TERMINATOR as nat, 16);
    lemma_bits_of_uint_len(TERMINATOR as nat, 16);
    lemma_bits_of_bytes_len(v.payload);
    lemma_split_at(s, pos, e0 + e1 + e2 + e3 + pl, t);
    lemma_split_at(s, pos, e0 + e1 + e2 + e3, pl);
    lemma_split_at(s, pos, e0 + e1 + e2, e3);
    lemma_split_at(s, pos, e0 + e1, e2);
    lemma_split_at(s, pos, e0, e1);
    Varint::<u32>::lemma_decode_encode(v.network_id, s, pos);
    Varint::<u32>::lemma_decode_encode(v.blocked_by_network_id, s, pos + e0.len());
    BitAligned::<u16>::lemma_decode_encode(BitAligned(v.event_id), s, pos + (e0 + e1).len());
    Nullable::<Vector3DBits>::lemma_decode_encode(v.position, s, pos + (e0 + e1 + e2).len());
    let p4 = pos + (e0 + e1 + e2 + e3).len();
    let n = s.len() - p4;
    assert(n == pl.len() + 16 + k);
    let max: nat = if n - 16 < 7 {
        (n - 16) as nat
    } else {
        7nat
    };
    lemma_find_terminator(s, 0, max, k);
    assert(s.len() - k - 16 == p4 + pl.len());
    lemma_bytes_bits_roundtrip(v.payload);
}

/// Parsing the serialized bytes of an RPC packet gives the packet back.
pub proof fn lemma_rpc_bytes_roundtrip(v: RawRpcPacketView)
    ensures
        spec_decode_rpc(bits_of_bytes(bytes_of_bits(spec_encode_rpc(v))), 0) == Decoded::Value(
            v,
            bits_of_bytes(bytes_of_bits(spec_encode_rpc(v))).len() as int,
        ),
{
    let e = spec_encode_rpc(v);
    let k = pad_len(e.len());
    lemma_bits_bytes_padded(e);
    let s = bits_of_bytes(bytes_of_bits(e));
    assert(s.subrange(0, e.len() as int) =~= e);
    lemma_rpc_decode_encode(v, s, 0, k);
}

impl RawRpcPacket {
    /// Decode an RPC packet from the rest of the stream.
    pub fn decode(r: &mut BitReader) -> (res: Result<RawRpcPacket, DecodeError>)
        requires
            old(r).wf(),
        ensures
            decoded_rpc(*old(r), *final(r), res),
    {
        let ghost s = r.bits@;
        let ghost pos0 = r.pos as int;
        let network_id = match Varint::<u32>::decode(r) {
            Ok(v) => v,
            Err(e) => {
                return Err(e);
            },
        };
        let blocked_by_network_id = match Varint::<u32>::decode(r) {
            Ok(v) => v,
            Err(e) => {
                return Err(e);
            },
        };
        let event_id = match BitAligned::<u16>::decode(r) {
            Ok(v) => v,
            Err(e) => {
                return Err(e);
            },
        };
        let position = match Nullable::<Vector3DBits>::decode(r) {
            Ok(v) => v,
            Err(e) => {
                return Err(e);
            },
        };
        let payload = match read_rpc_body(r) {
            Ok(v) => v,
            Err(e) => {
                return Err(e);
            },
        };
        Ok(RawRpcPacket { network_id, blocked_by_network_id, event_id: event_id.0, position, payload })
    }

    /// Append the encoding of the packet.
    pub fn encode(&self, w: &mut BitWriter)
        ensures
            final(w).bits@ == old(w).bits@ + spec_encode_rpc(self@),
    {
        self.network_id.encode(w);
        self.blocked_by_network_id.encode(w);
        BitAligned(self.event_id).encode(w);
        self.position.encode(w);
        let mut i: usize = 0;
        let ghost mid = w.bits@;
        assert(self.payload@.take(0) =~= Seq::<u8>::empty());
        assert(mid + bits_of_bytes(Seq::<u8>::empty()) =~= mid);
        while i < self.payload.len()
            invariant
                i <= self.payload.len(),
                w.bits@ == mid + bits_of_bytes(self.payload@.take(i as int)),
            decreases self.payload.len() - i,
        {
            BitAligned(self.payload[i]).encode(w);
            proof {
                let t = self.payload@.take(i as int + 1);
                assert(t.drop_last() =~= self.payload@.take(i as int));
            }
            i = i + 1;
        }
        assert(self.payload@.take(self.payload.len() as int) =~= self.payload@);
        BitAligned(TERMINATOR).encode(w);
        assert(w.bits@ =~= old(w).bits@ + spec_encode_rpc(self@));
    }

    /// Parse an RPC packet from bytes. Both network IDs must fit in 32
    /// bits; [`RawRpcPacket::from_bytes_defined`] tells whether they do.
    pub fn from_bytes(data: &[u8]) -> (res: Result<RawRpcPacket, DecodeError>)
        requires
            !(spec_decode_rpc(bits_of_bytes(data@), 0) is OutOfDomain),
        ensures
            match spec_decode_rpc(bits_of_bytes(data@), 0) {
                Decoded::Value(v, _) => res matches Ok(p) && p@ == v,
                Decoded::Failed(e) => res == Err::<RawRpcPacket, DecodeError>(e) && e != DecodeError::OutOfRange,
                Decoded::OutOfDomain => false,
            },
    {
        let mut r = BitReader::from_bytes(data);
        RawRpcPacket::decode(&mut r)
    }

    /// Whether [`RawRpcPacket::from_bytes`] is defined on `data`: whether
    /// the network IDs it holds fit in 32 bits.
    pub fn from_bytes_defined(data: &[u8]) -> (b: bool)
        ensures
            b == !(spec_decode_rpc(bits_of_bytes(data@), 0) is OutOfDomain),
    {
        let mut r = BitReader::from_bytes(data);
        match RawRpcPacket::decode(&mut r) {
            Err(DecodeError::OutOfRange) => false,
            _ => true,
        }
    }

    /// Serialize to bytes; the last byte is padded with zero bits.
    pub fn to_bytes(&self) -> (res: Result<Vec<u8>, DecodeError>)
        ensures
            res matches Ok(out) && out@ == bytes_of_bits(spec_encode_rpc(self@)),
    {
        let mut w = BitWriter::new();
        self.encode(&mut w);
        assert(w.bits@ =~= spec_encode_rpc(self@));
        Ok(w.to_bytes())
    }

    /// Whether this is a static (global) event: network ID 0.
    pub fn is_static_event(&self) -> (b: bool)
        ensures
            b == (self.network_id.0 == 0),
    {
        self.network_id.0 == 0
    }

    /// Whether this is an instance (object-specific) event: network ID not 0.
    pub fn is_instance_event(&self) -> (b: bool)
        ensures
            b == (self.network_id.0 != 0),
    {
        self.network_id.0 != 0
    }
}

/// What decoding an RPC packet from a reader does.
pub open spec fn decoded_rpc(
    before: BitReader,
    after: BitReader,
    res: Result<RawRpcPacket, DecodeError>,
) -> bool {
    &&& after.bits@ == before.bits@
    &&& after.pos <= after.bits@.len()
    &&& match spec_decode_rpc(before.bits@, before.pos as int) {
        Decoded::Value(v, end) => res matches Ok(p) && p@ == v && after.pos == end,
        Decoded::Failed(e) => res == Err::<RawRpcPacket, DecodeError>(e) && e != DecodeError::OutOfRange,
        Decoded::OutOfDomain => res == Err::<RawRpcPacket, DecodeError>(DecodeError::OutOfRange),
    }
}

/// The payload bytes `p .. start` of the reader's bits.
pub fn bits_range_to_bytes(bits: &Vec<bool>, start: usize, end: usize) -> (out: Vec<u8>)
    requires
        start <= end <= bits.len(),
    ensures
        out@ == bytes_of_bits(bits@.subrange(start as int, end as int)),
{
    let mut part: Vec<bool> = Vec::new();
    let mut i = start;
    while i < end
        invariant
            start <= i <= end <= bits.len(),
            part@ =~= bits@.subrange(start as int, i as int),
        decreases end - i,
    {
        part.push(bits[i]);
        i = i + 1;
    }
    bits_to_bytes(&part)
}

/// Read the RPC body: everything left, payload then terminator.
fn read_rpc_body(r: &mut BitReader) -> (res: Result<Vec<u8>, DecodeError>)
    requires
        old(r).wf(),
    ensures
        final(r).bits@ == old(r).bits@,
        final(r).pos <= final(r).bits@.len(),
        match spec_rpc_body(old(r).bits@, old(r).pos as int) {
            Decoded::Value(v, end) => res matches Ok(p) && p@ == v && final(r).pos == end,
            Decoded::Failed(e) => res == Err::<Vec<u8>, DecodeError>(e) && e != DecodeError::OutOfRange,
            Decoded::OutOfDomain => true,
        },
{
    let ghost s = r.bits@;
    let len = r.bits.len();
    let p = r.pos;
    let n = len - p;
    if n < 16 {
        return Err(DecodeError::RpcTooShort);
    }
    let max_padding: usize = if n - 16 < 7 {
        n - 16
    } else {
        7
    };
    let mut padding: usize = 0;
    while padding <= max_padding
        invariant
            r.bits@ == s,
            s == old(r).bits@,
            p == old(r).pos,
            len == s.len(),
            p == r.pos,
            p + 16 <= len,
            max_padding <= 7,
            max_padding <= len - p - 16,
            max_padding == (if len - p - 16 < 7 { len - p - 16 } else { 7 }),
            padding <= max_padding + 1,
            spec_find_terminator(s, padding as nat, max_padding as nat) == spec_find_terminator(
                s,
                0,
                max_padding as nat,
            ),
        decreases max_padding + 1 - padding,
    {
        let end = len - padding;
        let start = end - 16;
        let v = uint_of_bit_range(&r.bits, start, 16);
        if v == TERMINATOR as u64 {
            assert(uint_at(s, s.len() - padding - 16, 16) == TERMINATOR as nat);
            assert(spec_find_terminator(s, padding as nat, max_padding as nat) == Some(start as int));
            let payload = bits_range_to_bytes(&r.bits, p, start);

            r.pos = len;
            return Ok(payload);
        }
        padding = padding + 1;
    }
    Err(DecodeError::RpcTerminatorMissing)
}

/// Error of an RPC operation.
#[derive(Debug, Clone, Copy, PartialEq, Eq, Structural)]
pub enum RpcError {
    /// A static event was asked for, but the network ID is not 0.
    NotStaticEvent,
    /// The event ID was not found in the schema.
    UnknownEventId(u16),
    /// The instance event ID was not found for the given type.
    UnknownInstanceEvent { type_hash: i32, event_id: u16 },
    /// Schema lookup error.
    Schema(SchemaError),
}

impl From<SchemaError> for RpcError {
    fn from(e: SchemaError) -> (r: RpcError) {
        RpcError::Schema(e)
    }
}

impl vstd::std_specs::convert::FromSpecImpl<SchemaError> for RpcError {
    open spec fn obeys_from_spec() -> bool {
        true
    }

    open spec fn from_spec(e: SchemaError) -> RpcError {
        RpcError::Schema(e)
    }
}

impl RawRpcPacket {
    /// The stable hash of a static event: an error for an instance event,
    /// `None` for an event ID that the schema does not know.
    pub fn resolve_static_event_hash(&self, schema: &Version) -> (r: Result<Option<i32>, RpcError>)
        ensures
            self.network_id.0 != 0 ==> r == Err::<Option<i32>, RpcError>(RpcError::NotStaticEvent),
            self.network_id.0 == 0 ==> r == Ok::<Option<i32>, RpcError>(
                nonzero_at(schema@.static_ids, self.event_id as int),
            ),
    {
        if !self.is_static_event() {
            return Err(RpcError::NotStaticEvent);
        }
        Ok(schema.try_decode_static_event_id(self.event_id))
    }

    /// The stable hash of a static event whose payload is to be parsed:
    /// an error for an instance event or an event ID unknown to the schema.
    pub fn static_event_hash(&self, schema: &Version) -> (r: Result<i32, RpcError>)
        ensures
            self.network_id.0 != 0 ==> r == Err::<i32, RpcError>(RpcError::NotStaticEvent),
            self.network_id.0 == 0 ==> r == match nonzero_at(schema@.static_ids, self.event_id as int) {
                Some(h) => Ok::<i32, RpcError>(h),
                None => Err(RpcError::UnknownEventId(self.event_id)),
            },
    {
        if !self.is_static_event() {
            return Err(RpcError::NotStaticEvent);
        }
        match schema.try_decode_static_event_id(self.event_id) {
            Some(h) => Ok(h),
            None => Err(RpcError::UnknownEventId(self.event_id)),
        }
    }

    /// The stable event hash of an instance event on a type.
    pub fn resolve_instance_event_hash(&self, schema: &Version, type_hash: i32) -> (r: Result<i32, RpcError>)
        ensures
            r == match instance_decode(schema@, type_hash, self.event_id) {
                Some(h) => Ok::<i32, RpcError>(h),
                None => Err(RpcError::UnknownInstanceEvent { type_hash, event_id: self.event_id }),
            },
    {
        match schema.try_decode_instance_event_id(type_hash, self.event_id) {
            Some(h) => Ok(h),
            None => Err(RpcError::UnknownInstanceEvent { type_hash, event_id: self.event_id }),
        }
    }
}

} // verus!
