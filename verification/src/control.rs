//! Control packets for server management: kick, ban, disconnect and
//! password authentication. They travel on a channel of their own, framed
//! like replication packets: a 16-bit packet ID, then the message body.
use crate::bits::{
    bits_of_uint, lemma_bits_of_uint_len, lemma_two_pow_values, lemma_uint_roundtrip,
    spec_read_uint, BitReader, BitWriter, DecodeError, Decoded,
};
use crate::packet::{
    frame_stream, lemma_frame_layout, spec_checksum_valid, spec_decode_frame, written_frame, FrameBody,
    PacketFrameView, MAGIC_NUMBER,
};
use crate::wire::{decoded_as, lemma_split_at, BitCodec, VarBytes};
use vstd::prelude::*;

verus! {

/// Control packet type identifier (16 bits, little-endian).
#[derive(Clone, Copy, Debug, PartialEq, Eq, Hash, Structural)]
pub enum ControlPacketId {
    /// Kick packet.
    Kick,
    /// Disconnected notification.
    Disconnected,
    /// Ban packet.
    Ban,
    /// Password hash packet.
    SendPasswordHash,
}

impl ControlPacketId {
    /// The identifier written on the wire.
    pub open spec fn spec_id(self) -> nat {
        match self {
            ControlPacketId::Kick => 0,
            ControlPacketId::Disconnected => 1,
            ControlPacketId::Ban => 2,
            ControlPacketId::SendPasswordHash => 3,
        }
    }

    /// The variant an identifier names.
    pub open spec fn spec_from_id(id: nat) -> Option<ControlPacketId> {
        if id == 0 {
            Some(ControlPacketId::Kick)
        } else if id == 1 {
            Some(ControlPacketId::Disconnected)
        } else if id == 2 {
            Some(ControlPacketId::Ban)
        } else if id == 3 {
            Some(ControlPacketId::SendPasswordHash)
        } else {
            None
        }
    }

    /// The identifier written on the wire.
    pub fn id(&self) -> (r: u64)
        ensures
            r == self.spec_id(),
    {
        match self {
            ControlPacketId::Kick => 0,
            ControlPacketId::Disconnected => 1,
            ControlPacketId::Ban => 2,
            ControlPacketId::SendPasswordHash => 3,
        }
    }

    /// The variant an identifier names.
    pub fn from_id(id: u64) -> (r: Option<ControlPacketId>)
        ensures
            r == ControlPacketId::spec_from_id(id as nat),
    {
        if id == 0 {
            Some(ControlPacketId::Kick)
        } else if id == 1 {
            Some(ControlPacketId::Disconnected)
        } else if id == 2 {
            Some(ControlPacketId::Ban)
        } else if id == 3 {
            Some(ControlPacketId::SendPasswordHash)
        } else {
            None
        }
    }
}

impl View for ControlPacketId {
    type V = ControlPacketId;

    open spec fn view(&self) -> ControlPacketId {
        *self
    }
}

impl BitCodec for ControlPacketId {
    /// 16 bits holding the identifier; an identifier of no variant is an error.
    open spec fn spec_decode(s: Seq<bool>, pos: int) -> Decoded<ControlPacketId> {
        match spec_read_uint(s, pos, 16) {
            Decoded::Value(u, end) => match ControlPacketId::spec_from_id(u as nat) {
                Some(v) => Decoded::Value(v, end),
                None => Decoded::Failed(DecodeError::UnknownId),
            },
            Decoded::Failed(e) => Decoded::Failed(e),
            Decoded::OutOfDomain => Decoded::OutOfDomain,
        }
    }

    open spec fn spec_encode(v: ControlPacketId) -> Seq<bool> {
        bits_of_uint(v.spec_id(), 16)
    }

    open spec fn spec_encodable(v: ControlPacketId) -> bool {
        true
    }

    proof fn lemma_decode_encode(v: ControlPacketId, s: Seq<bool>, pos: int) {
        lemma_two_pow_values();
        lemma_bits_of_uint_len(v.spec_id(), 16);
        lemma_uint_roundtrip(v.spec_id(), 16);
    }

    fn decode(r: &mut BitReader) -> (res: Result<ControlPacketId, DecodeError>) {
        match r.read_uint(16) {
            Ok(u) => match ControlPacketId::from_id(u) {
                Some(v) => Ok(v),
                None => Err(DecodeError::UnknownId),
            },
            Err(e) => Err(e),
        }
    }

    fn encode(&self, w: &mut BitWriter) {
        w.write_uint(self.id(), 16);
    }
}

/// Control packet payload variants.
#[derive(Clone, Debug, PartialEq)]
pub enum ControlPayload {
    /// Kick a client from the server (its Steam ID).
    Kick { client_id: u64 },
    /// A client has disconnected (its Steam ID).
    Disconnected { client_id: u64 },
    /// Ban a client from the server (its Steam ID).
    Ban { client_id: u64 },
    /// Password hash for server authentication (PBKDF2-SHA1, 20 bytes).
    SendPasswordHash { password_hash: VarBytes },
}

/// The view of a [`ControlPayload`].
pub enum ControlPayloadView {
    Kick { client_id: u64 },
    Disconnected { client_id: u64 },
    Ban { client_id: u64 },
    SendPasswordHash { password_hash: Seq<u8> },
}

impl View for ControlPayload {
    type V = ControlPayloadView;

    open spec fn view(&self) -> ControlPayloadView {
        match self {
            ControlPayload::Kick { client_id } => ControlPayloadView::Kick { client_id: *client_id },
            ControlPayload::Disconnected { client_id } => ControlPayloadView::Disconnected {
                client_id: *client_id,
            },
            ControlPayload::Ban { client_id } => ControlPayloadView::Ban { client_id: *client_id },
            ControlPayload::SendPasswordHash { password_hash } =>
                ControlPayloadView::SendPasswordHash { password_hash: password_hash@ },
        }
    }
}

impl ControlPayloadView {
    /// The packet ID that announces this payload.
    pub open spec fn id(self) -> ControlPacketId {
        match self {
            ControlPayloadView::Kick { .. } => ControlPacketId::Kick,
            ControlPayloadView::Disconnected { .. } => ControlPacketId::Disconnected,
            ControlPayloadView::Ban { .. } => ControlPacketId::Ban,
            ControlPayloadView::SendPasswordHash { .. } => ControlPacketId::SendPasswordHash,
        }
    }
}

/// Decoding the payload that `id` announces.
pub open spec fn spec_decode_control_payload(s: Seq<bool>, pos: int, id: ControlPacketId) -> Decoded<
    ControlPayloadView,
> {
    match id {
        ControlPacketId::Kick => u64::spec_decode(s, pos).map(
            |c: u64| ControlPayloadView::Kick { client_id: c },
        ),
        ControlPacketId::Disconnected => u64::spec_decode(s, pos).map(
            |c: u64| ControlPayloadView::Disconnected { client_id: c },
        ),
        ControlPacketId::Ban => u64::spec_decode(s, pos).map(
            |c: u64| ControlPayloadView::Ban { client_id: c },
        ),
        ControlPacketId::SendPasswordHash => VarBytes::spec_decode(s, pos).map(
            |h: Seq<u8>| ControlPayloadView::SendPasswordHash { password_hash: h },
        ),
    }
}

/// The encoding of a payload; its ID is written by the packet.
pub open spec fn spec_encode_control_payload(v: ControlPayloadView) -> Seq<bool> {
    match v {
        ControlPayloadView::Kick { client_id } => u64::spec_encode(client_id),
        ControlPayloadView::Disconnected { client_id } => u64::spec_encode(client_id),
        ControlPayloadView::Ban { client_id } => u64::spec_encode(client_id),
        ControlPayloadView::SendPasswordHash { password_hash } => VarBytes::spec_encode(
            password_hash,
        ),
    }
}

impl ControlPayload {
    pub fn decode(r: &mut BitReader, id: ControlPacketId) -> (res: Result<ControlPayload, DecodeError>)
        requires
            old(r).wf(),
        ensures
            crate::wire::decoded_as(
                *old(r),
                *final(r),
                res,
                spec_decode_control_payload(old(r).bits@, old(r).pos as int, id),
            ),
    {
        match id {
            ControlPacketId::Kick => match u64::decode(r) {
                Ok(c) => Ok(ControlPayload::Kick { client_id: c }),
                Err(e) => Err(e),
            },
            ControlPacketId::Disconnected => match u64::decode(r) {
                Ok(c) => Ok(ControlPayload::Disconnected { client_id: c }),
                Err(e) => Err(e),
            },
            ControlPacketId::Ban => match u64::decode(r) {
                Ok(c) => Ok(ControlPayload::Ban { client_id: c }),
                Err(e) => Err(e),
            },
            ControlPacketId::SendPasswordHash => match VarBytes::decode(r) {
                Ok(h) => Ok(ControlPayload::SendPasswordHash { password_hash: h }),
                Err(e) => Err(e),
            },
        }
    }

    pub fn encode(&self, w: &mut BitWriter)
        ensures
            final(w).bits@ == old(w).bits@ + spec_encode_control_payload(self@),
    {
        match self {
            ControlPayload::Kick { client_id } => client_id.encode(w),
            ControlPayload::Disconnected { client_id } => client_id.encode(w),
            ControlPayload::Ban { client_id } => client_id.encode(w),
            ControlPayload::SendPasswordHash { password_hash } => password_hash.encode(w),
        }
    }
}

/// Control packet: a packet ID, then the payload it announces.
#[derive(Clone, Debug, PartialEq)]
pub struct ControlPacket {
    /// Control packet type identifier.
    pub packet_id: ControlPacketId,
    /// Packet payload (its type follows `packet_id`).
    pub data: ControlPayload,
}

/// The view of a [`ControlPacket`].
pub struct ControlPacketView {
    pub packet_id: ControlPacketId,
    pub data: ControlPayloadView,
}

impl View for ControlPacket {
    type V = ControlPacketView;

    open spec fn view(&self) -> ControlPacketView {
        ControlPacketView { packet_id: self.packet_id, data: self.data@ }
    }
}

impl BitCodec for ControlPacket {
    open spec fn spec_decode(s: Seq<bool>, pos: int) -> Decoded<ControlPacketView> {
        ControlPacketId::spec_decode(s, pos).and_then(
            |id: ControlPacketId, p: int|
                spec_decode_control_payload(s, p, id).map(
                    |data: ControlPayloadView| ControlPacketView { packet_id: id, data },
                ),
        )
    }

    open spec fn spec_encode(v: ControlPacketView) -> Seq<bool> {
        ControlPacketId::spec_encode(v.packet_id) + spec_encode_control_payload(v.data)
    }

    /// The payload is the one the packet ID announces.
    open spec fn spec_encodable(v: ControlPacketView) -> bool {
        &&& v.data.id() == v.packet_id
        &&& v.data matches ControlPayloadView::SendPasswordHash { password_hash } ==> password_hash.len()
            <= u32::MAX
    }

    proof fn lemma_decode_encode(v: ControlPacketView, s: Seq<bool>, pos: int) {
        let e0 = ControlPacketId::spec_encode(v.packet_id);
        let e1 = spec_encode_control_payload(v.data);
        lemma_split_at(s, pos, e0, e1);
        ControlPacketId::lemma_decode_encode(v.packet_id, s, pos);
        match v.data {
            ControlPayloadView::Kick { client_id } => {
                u64::lemma_decode_encode(client_id, s, pos + e0.len());
            },
            ControlPayloadView::Disconnected { client_id } => {
                u64::lemma_decode_encode(client_id, s, pos + e0.len());
            },
            ControlPayloadView::Ban { client_id } => {
                u64::lemma_decode_encode(client_id, s, pos + e0.len());
            },
            ControlPayloadView::SendPasswordHash { password_hash } => {
                VarBytes::lemma_decode_encode(password_hash, s, pos + e0.len());
            },
        }
    }

    fn decode(r: &mut BitReader) -> (res: Result<ControlPacket, DecodeError>) {
        let packet_id = match ControlPacketId::decode(r) {
            Ok(v) => v,
            Err(e) => {
                return Err(e);
            },
        };
        match ControlPayload::decode(r, packet_id) {
            Ok(data) => Ok(ControlPacket { packet_id, data }),
            Err(e) => Err(e),
        }
    }

    fn encode(&self, w: &mut BitWriter) {
        self.packet_id.encode(w);
        self.data.encode(w);
        assert(w.bits@ =~= old(w).bits@ + ControlPacket::spec_encode(self@));
    }
}

impl FrameBody for ControlPacket {
    open spec fn spec_decode_body(s: Seq<bool>, pos: int) -> Decoded<ControlPacketView> {
        ControlPacket::spec_decode(s, pos)
    }

    open spec fn spec_encode_body(v: ControlPacketView) -> Seq<bool> {
        ControlPacket::spec_encode(v)
    }

    fn decode_body(r: &mut BitReader) -> (res: Result<ControlPacket, DecodeError>) {
        ControlPacket::decode(r)
    }

    fn encode_body(&self, w: &mut BitWriter) {
        self.encode(w)
    }
}

/// A control packet framed and written by `to_bytes` reads back as
/// written, with a valid checksum.
pub proof fn lemma_control_frame_roundtrip(f: PacketFrameView<ControlPacketView>)
    requires
        f.magic_number == MAGIC_NUMBER,
        ControlPacket::spec_encodable(f.inner),
    ensures
        spec_decode_frame::<ControlPacket>(frame_stream::<ControlPacket>(f), 0) matches Decoded::Value(g, _)
            && g == written_frame::<ControlPacket>(f),
        spec_checksum_valid::<ControlPacket>(written_frame::<ControlPacket>(f)),
{
    lemma_frame_layout::<ControlPacket>(f);
    ControlPacket::lemma_decode_encode(f.inner, frame_stream::<ControlPacket>(f), 64);
}


/// The wire identifier of each control packet is the game's
/// `MyControlMessageEnum` value: kick = 0, disconnected = 1, ban = 2,
/// password hash = 3.
///
/// An identifier names exactly the variant whose identifier it is, and
/// nothing else.
pub proof fn lemma_control_packet_id_table()
    ensures
        ControlPacketId::Kick.spec_id() == 0,
        ControlPacketId::Disconnected.spec_id() == 1,
        ControlPacketId::Ban.spec_id() == 2,
        ControlPacketId::SendPasswordHash.spec_id() == 3,
        forall|id: nat, v: ControlPacketId| #![trigger ControlPacketId::spec_from_id(id), v.spec_id()] ControlPacketId::spec_from_id(id) == Some(v) <==> v.spec_id() == id,
        forall|id: nat| #[trigger] ControlPacketId::spec_from_id(id) is None <==> (forall|v: ControlPacketId| v.spec_id() != id),
{
    assert forall|id: nat, v: ControlPacketId| #![trigger ControlPacketId::spec_from_id(id), v.spec_id()] ControlPacketId::spec_from_id(id) == Some(v) <==> v.spec_id() == id by {
        match v {
            ControlPacketId::Kick => {},
            ControlPacketId::Disconnected => {},
            ControlPacketId::Ban => {},
            ControlPacketId::SendPasswordHash => {},
        }
    }
    assert forall|id: nat| #[trigger] ControlPacketId::spec_from_id(id) is None <==> (forall|v: ControlPacketId| v.spec_id() != id) by {
        if ControlPacketId::spec_from_id(id) is None {
            assert forall|v: ControlPacketId| v.spec_id() != id by {
                match v {
                    ControlPacketId::Kick => {},
                    ControlPacketId::Disconnected => {},
                    ControlPacketId::Ban => {},
                    ControlPacketId::SendPasswordHash => {},
                }
            }
        } else {
            let v = ControlPacketId::spec_from_id(id).unwrap();
            assert(v.spec_id() == id);
        }
    }
}


/// A control packet's identifier travels as a little-endian 16-bit number:
/// a stream that opens with the bytes `lo`, `hi` reads as the control
/// packet whose identifier is `lo + 256 * hi` (so `00 00` is a kick), and a
/// control packet's identifier is written as its number's low byte, then a
/// zero byte.
pub proof fn lemma_control_packet_id_bytes(lo: u8, hi: u8, rest: Seq<bool>)
    ensures
        forall|p: ControlPacketId|
            ControlPacketId::spec_decode(crate::bits::bits_of_bytes(seq![lo, hi]) + rest, 0) == Decoded::Value(p, 16)
                <==> #[trigger] p.spec_id() == lo + 256 * hi,
        forall|p: ControlPacketId|
            #[trigger] ControlPacketId::spec_encode(p) == crate::bits::bits_of_bytes(seq![p.spec_id() as u8, 0u8]),
{
    let s = crate::bits::bits_of_bytes(seq![lo, hi]) + rest;
    lemma_two_pow_values();
    crate::bits::lemma_bits_of_bytes_append(seq![lo], seq![hi]);
    assert(seq![lo] + seq![hi] =~= seq![lo, hi]);
    crate::bits::lemma_bits_of_one_byte(lo);
    crate::bits::lemma_bits_of_one_byte(hi);
    let a = bits_of_uint(lo as nat, 8);
    let c = bits_of_uint(hi as nat, 8);
    lemma_bits_of_uint_len(lo as nat, 8);
    lemma_bits_of_uint_len(hi as nat, 8);
    assert(s.subrange(0, 16) =~= a + c);
    crate::bits::lemma_uint_of_bits_append(a, c);
    lemma_uint_roundtrip(lo as nat, 8);
    lemma_uint_roundtrip(hi as nat, 8);
    assert(crate::bits::uint_at(s, 0, 16) == lo + 256 * hi);
    lemma_control_packet_id_table();
    assert forall|p: ControlPacketId|
        #[trigger] ControlPacketId::spec_encode(p) == crate::bits::bits_of_bytes(seq![p.spec_id() as u8, 0u8]) by {
        let id = p.spec_id();
        assert(id < 256);
        crate::bits::lemma_bits_of_bytes_append(seq![id as u8], seq![0u8]);
        assert(seq![id as u8] + seq![0u8] =~= seq![id as u8, 0u8]);
        crate::bits::lemma_bits_of_one_byte(id as u8);
        crate::bits::lemma_bits_of_one_byte(0u8);
        lemma_bits_split16(id);
    }
}

/// The 16 bits of a number under 256 are its 8 bits, then 8 zero bits.
proof fn lemma_bits_split16(id: nat)
    requires
        id < 256,
    ensures
        bits_of_uint(id, 16) == bits_of_uint(id, 8) + bits_of_uint(0, 8),
{
    lemma_two_pow_values();
    lemma_bits_split(id, 8, 8);
}

/// The `a + b` bits of a number under `2^a` are its `a` bits, then `b`
/// zero bits.
proof fn lemma_bits_split(v: nat, a: nat, b: nat)
    requires
        v < crate::bits::two_pow(a),
    ensures
        bits_of_uint(v, a + b) == bits_of_uint(v, a) + bits_of_uint(0, b),
    decreases a,
{
    if a == 0 {
        assert(v == 0) by {
            reveal_with_fuel(crate::bits::two_pow, 1);
        }
        assert(bits_of_uint(v, a) =~= Seq::<bool>::empty());
        assert(bits_of_uint(v, a) + bits_of_uint(0, b) =~= bits_of_uint(0, b));
    } else {
        crate::bits::lemma_two_pow_facts((a - 1) as nat);
        lemma_bits_split(v / 2, (a - 1) as nat, b);
        assert(bits_of_uint(v, a + b) =~= seq![v % 2 == 1] + bits_of_uint(v / 2, (a - 1 + b) as nat));
        assert(bits_of_uint(v, a) =~= seq![v % 2 == 1] + bits_of_uint(v / 2, (a - 1) as nat));
    }
}

} // verus!
