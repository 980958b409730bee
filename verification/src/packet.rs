//! Packet framing for the Space Engineers network protocol.
//!
//! Every replication or control packet travels inside a frame: a magic
//! byte, the protection level, a CRC-32 checksum, the fragment index and
//! count, then the body.
//!
//! ```text
//! +--------+-------------+-----------+-------------+-------------+------+
//! | Magic  | MessageType | Checksum  | PacketIndex | PacketCount | Data |
//! | 1 byte | 1 byte      | 4 bytes   | 1 byte      | 1 byte      | ...  |
//! +--------+-------------+-----------+-------------+-------------+------+
//! ```
use crate::bits::{
    bits_of_bytes, bits_of_uint, bytes_of_bits, lemma_bits_bytes_padded, lemma_bits_of_uint_len,
    lemma_two_pow_values, lemma_uint_roundtrip, pad_len, spec_read_uint, zero_bits, BitReader,
    BitWriter, DecodeError, Decoded,
};
use crate::rpc::bits_range_to_bytes;
use crate::wire::{decoded_as, lemma_split_at, BitCodec};
use vstd::prelude::*;

verus! {

/// Magic number that opens every packet frame (the CP-437 character 'Î').
pub const MAGIC_NUMBER: u8 = 206;

/// Terminator value that ends RPC bodies and state groups.
pub const TERMINATOR: u16 = 51385;

/// Message type indicator: the protection level of a frame.
#[derive(Clone, Copy, Debug, PartialEq, Eq, Hash, Structural)]
pub enum MessageType {
    /// Unprotected packet (checksum not verified).
    Unprotected,
    /// Tamper-resistant packet (checksum verified).
    TamperResistant,
}

impl MessageType {
    /// The identifier written on the wire.
    pub open spec fn spec_id(self) -> nat {
        match self {
            MessageType::Unprotected => 0,
            MessageType::TamperResistant => 1,
        }
    }

    /// The variant an identifier names.
    pub open spec fn spec_from_id(id: nat) -> Option<MessageType> {
        if id == 0 {
            Some(MessageType::Unprotected)
        } else if id == 1 {
            Some(MessageType::TamperResistant)
        } else {
            None
        }
    }

    /// The identifier written on the wire.
    pub fn id(&self) -> (r: u64)
        ensures
            r == self.spec_id(),
    {
        match self {
            MessageType::Unprotected => 0,
            MessageType::TamperResistant => 1,
        }
    }

    /// The variant an identifier names.
    pub fn from_id(id: u64) -> (r: Option<MessageType>)
        ensures
            r == MessageType::spec_from_id(id as nat),
    {
        if id == 0 {
            Some(MessageType::Unprotected)
        } else if id == 1 {
            Some(MessageType::TamperResistant)
        } else {
            None
        }
    }
}

impl View for MessageType {
    type V = MessageType;

    open spec fn view(&self) -> MessageType {
        *self
    }
}

impl BitCodec for MessageType {
    /// 8 bits holding the identifier; an identifier of no variant is an error.
    open spec fn spec_decode(s: Seq<bool>, pos: int) -> Decoded<MessageType> {
        match spec_read_uint(s, pos, 8) {
            Decoded::Value(u, end) => match MessageType::spec_from_id(u as nat) {
                Some(v) => Decoded::Value(v, end),
                None => Decoded::Failed(DecodeError::UnknownId),
            },
            Decoded::Failed(e) => Decoded::Failed(e),
            Decoded::OutOfDomain => Decoded::OutOfDomain,
        }
    }

    open spec fn spec_encode(v: MessageType) -> Seq<bool> {
        bits_of_uint(v.spec_id(), 8)
    }

    open spec fn spec_encodable(v: MessageType) -> bool {
        true
    }

    proof fn lemma_decode_encode(v: MessageType, s: Seq<bool>, pos: int) {
        lemma_two_pow_values();
        lemma_bits_of_uint_len(v.spec_id(), 8);
        lemma_uint_roundtrip(v.spec_id(), 8);
    }

    fn decode(r: &mut BitReader) -> (res: Result<MessageType, DecodeError>) {
        match r.read_uint(8) {
            Ok(u) => match MessageType::from_id(u) {
                Some(v) => Ok(v),
                None => Err(DecodeError::UnknownId),
            },
            Err(e) => Err(e),
        }
    }

    fn encode(&self, w: &mut BitWriter) {
        w.write_uint(self.id(), 8);
    }
}


/// The CRC-32 (ISO-HDLC) checksum of a byte string, as the `crc` crate
/// computes it.
pub uninterp spec fn crc32_iso_hdlc(data: Seq<u8>) -> u32;

/// Calls `crc::Crc::<u32>::checksum` with the `CRC_32_ISO_HDLC` algorithm.
/// The result is a function of the bytes alone, named `crc32_iso_hdlc`;
/// the algorithm itself is not restated here.
#[verifier::external_body]
fn crc32_checksum(data: &[u8]) -> (r: u32)
    ensures
        r == crc32_iso_hdlc(data@),
{
    crc::Crc::<u32>::new(&crc::CRC_32_ISO_HDLC).checksum(data)
}

/// The whole bytes of a bit string: a trailing partial byte is dropped.
pub open spec fn whole_bytes(s: Seq<bool>) -> Seq<u8> {
    bytes_of_bits(s.subrange(0, (s.len() / 8 * 8) as int))
}

/// A body that a frame can carry: how it is read from the rest of the
/// frame and what it writes after the header.
pub trait FrameBody: Sized + View {
    /// The result of decoding a body at `pos` of `s`.
    spec fn spec_decode_body(s: Seq<bool>, pos: int) -> Decoded<Self::V>;

    /// The bits that writing a body appends.
    spec fn spec_encode_body(v: Self::V) -> Seq<bool>;

    fn decode_body(r: &mut BitReader) -> (res: Result<Self, DecodeError>)
        requires
            old(r).wf(),
        ensures
            decoded_as(*old(r), *final(r), res, Self::spec_decode_body(old(r).bits@, old(r).pos as int)),
    ;

    fn encode_body(&self, w: &mut BitWriter)
        ensures
            final(w).bits@ == old(w).bits@ + Self::spec_encode_body(self@),
    ;
}

/// Outer packet frame that wraps replication and control packets.
#[derive(Debug, PartialEq)]
pub struct PacketFrame<T> {
    /// Magic number; a frame is read and written only with [`MAGIC_NUMBER`].
    pub magic_number: u8,
    /// Message type (protection level).
    pub message_type: MessageType,
    /// CRC-32 checksum of `[packet_index, packet_count, inner...]` as read
    /// from the wire; writing a frame computes it afresh.
    pub checksum: u32,
    /// Sequential index of this packet (for large packets split across frames).
    pub packet_index: u8,
    /// Total count of packets in this sequence (0 = single packet).
    pub packet_count: u8,
    /// The frame's body.
    pub inner: T,
}

/// The view of a [`PacketFrame`].
pub struct PacketFrameView<V> {
    pub magic_number: u8,
    pub message_type: MessageType,
    pub checksum: u32,
    pub packet_index: u8,
    pub packet_count: u8,
    pub inner: V,
}

impl<T: FrameBody> View for PacketFrame<T> {
    type V = PacketFrameView<T::V>;

    open spec fn view(&self) -> PacketFrameView<T::V> {
        PacketFrameView {
            magic_number: self.magic_number,
            message_type: self.message_type,
            checksum: self.checksum,
            packet_index: self.packet_index,
            packet_count: self.packet_count,
            inner: self.inner@,
        }
    }
}

/// The checksum of a frame: CRC-32 of the fragment index and count
/// followed by the whole bytes of the written body.
pub open spec fn spec_frame_checksum<T: FrameBody>(packet_index: u8, packet_count: u8, inner: T::V) -> u32 {
    crc32_iso_hdlc(seq![packet_index, packet_count] + whole_bytes(T::spec_encode_body(inner)))
}

/// Whether a frame's checksum is in order: always for an unprotected
/// frame; for a tamper-resistant one, when it equals the computed one.
pub open spec fn spec_checksum_valid<T: FrameBody>(v: PacketFrameView<T::V>) -> bool {
    match v.message_type {
        MessageType::Unprotected => true,
        MessageType::TamperResistant => v.checksum == spec_frame_checksum::<T>(
            v.packet_index,
            v.packet_count,
            v.inner,
        ),
    }
}

/// Decoding a frame: the magic byte (any other value is an assertion
/// error), message type, checksum (32 bits, little-endian), index, count,
/// then the body.
pub open spec fn spec_decode_frame<T: FrameBody>(s: Seq<bool>, pos: int) -> Decoded<PacketFrameView<T::V>> {
    u8::spec_decode(s, pos).and_then(
        |magic_number: u8, p1: int|
            if magic_number != MAGIC_NUMBER {
                Decoded::Failed(DecodeError::Assertion)
            } else {
                MessageType::spec_decode(s, p1).and_then(
                    |message_type: MessageType, p2: int|
                        u32::spec_decode(s, p2).and_then(
                            |checksum: u32, p3: int|
                                u8::spec_decode(s, p3).and_then(
                                    |packet_index: u8, p4: int|
                                        u8::spec_decode(s, p4).and_then(
                                            |packet_count: u8, p5: int|
                                                T::spec_decode_body(s, p5).map(
                                                    |inner: T::V|
                                                        PacketFrameView {
                                                            magic_number,
                                                            message_type,
                                                            checksum,
                                                            packet_index,
                                                            packet_count,
                                                            inner,
                                                        },
                                                ),
                                        ),
                                ),
                        ),
                )
            },
    )
}

/// The bits of a written frame: the header with the computed checksum in
/// place of the stored one, then the body.
pub open spec fn spec_encode_frame<T: FrameBody>(v: PacketFrameView<T::V>) -> Seq<bool> {
    u8::spec_encode(v.magic_number) + MessageType::spec_encode(v.message_type) + u32::spec_encode(
        spec_frame_checksum::<T>(v.packet_index, v.packet_count, v.inner),
    ) + u8::spec_encode(v.packet_index) + u8::spec_encode(v.packet_count) + T::spec_encode_body(v.inner)
}

impl<T: FrameBody> PacketFrame<T> {
    /// Create a new packet frame with the given message type and body:
    /// a single packet (index 1, count 0) with checksum 0.
    pub fn new(message_type: MessageType, inner: T) -> (f: Self)
        ensures
            f.magic_number == MAGIC_NUMBER,
            f.message_type == message_type,
            f.checksum == 0,
            f.packet_index == 1,
            f.packet_count == 0,
            f.inner == inner,
    {
        PacketFrame {
            magic_number: MAGIC_NUMBER,
            message_type,
            checksum: 0,
            packet_index: 1,
            packet_count: 0,
            inner,
        }
    }

    /// Create a new unprotected packet frame.
    pub fn unprotected(inner: T) -> (f: Self)
        ensures
            f.magic_number == MAGIC_NUMBER,
            f.message_type == MessageType::Unprotected,
            f.checksum == 0,
            f.packet_index == 1,
            f.packet_count == 0,
            f.inner == inner,
    {
        Self::new(MessageType::Unprotected, inner)
    }

    /// Create a new tamper-resistant packet frame.
    pub fn tamper_resistant(inner: T) -> (f: Self)
        ensures
            f.magic_number == MAGIC_NUMBER,
            f.message_type == MessageType::TamperResistant,
            f.checksum == 0,
            f.packet_index == 1,
            f.packet_count == 0,
            f.inner == inner,
    {
        Self::new(MessageType::TamperResistant, inner)
    }

    /// Compute the CRC-32 checksum of the frame: it covers
    /// `[packet_index, packet_count, inner...]`, the body as written
    /// without its trailing partial byte.
    pub fn compute_checksum(&self) -> (c: u32)
        ensures
            c == spec_frame_checksum::<T>(self.packet_index, self.packet_count, self.inner@),
    {
        let mut w = BitWriter::new();
        self.inner.encode_body(&mut w);
        assert(w.bits@ =~= T::spec_encode_body(self.inner@));
        let n = w.bits.len() / 8 * 8;
        let mut body = bits_range_to_bytes(&w.bits, 0, n);
        let mut data: Vec<u8> = Vec::new();
        data.push(self.packet_index);
        data.push(self.packet_count);
        data.append(&mut body);
        assert(data@ =~= seq![self.packet_index, self.packet_count] + whole_bytes(T::spec_encode_body(self.inner@)));
        crc32_checksum(data.as_slice())
    }

    /// Validate the packet checksum: `true` for an unprotected frame, and
    /// for a tamper-resistant one whose checksum matches the computed one.
    pub fn validate_checksum(&self) -> (b: bool)
        ensures
            b == spec_checksum_valid::<T>(self@),
    {
        match self.message_type {
            MessageType::Unprotected => true,
            MessageType::TamperResistant => self.checksum == self.compute_checksum(),
        }
    }

    /// Decode a frame from a bit stream.
    pub fn decode(r: &mut BitReader) -> (res: Result<PacketFrame<T>, DecodeError>)
        requires
            old(r).wf(),
        ensures
            decoded_as(*old(r), *final(r), res, spec_decode_frame::<T>(old(r).bits@, old(r).pos as int)),
    {
        let magic_number = match u8::decode(r) {
            Ok(v) => v,
            Err(e) => {
                return Err(e);
            },
        };
        if magic_number != MAGIC_NUMBER {
            return Err(DecodeError::Assertion);
        }
        let message_type = match MessageType::decode(r) {
            Ok(v) => v,
            Err(e) => {
                return Err(e);
            },
        };
        let checksum = match u32::decode(r) {
            Ok(v) => v,
            Err(e) => {
                return Err(e);
            },
        };
        let packet_index = match u8::decode(r) {
            Ok(v) => v,
            Err(e) => {
                return Err(e);
            },
        };
        let packet_count = match u8::decode(r) {
            Ok(v) => v,
            Err(e) => {
                return Err(e);
            },
        };
        match T::decode_body(r) {
            Ok(inner) => Ok(PacketFrame {
                magic_number,
                message_type,
                checksum,
                packet_index,
                packet_count,
                inner,
            }),
            Err(e) => Err(e),
        }
    }

    /// Parse a frame from bytes. The numbers in the body must fit the
    /// types that hold them; [`PacketFrame::from_bytes_defined`] tells
    /// whether they do.
    pub fn from_bytes(data: &[u8]) -> (res: Result<PacketFrame<T>, DecodeError>)
        requires
            !(spec_decode_frame::<T>(bits_of_bytes(data@), 0) is OutOfDomain),
        ensures
            match spec_decode_frame::<T>(bits_of_bytes(data@), 0) {
                Decoded::Value(v, _) => res matches Ok(f) && f@ == v,
                Decoded::Failed(e) => res == Err::<PacketFrame<T>, DecodeError>(e),
                Decoded::OutOfDomain => false,
            },
    {
        let mut r = BitReader::from_bytes(data);
        Self::decode(&mut r)
    }

    /// Whether [`PacketFrame::from_bytes`] is defined on `data`.
    pub fn from_bytes_defined(data: &[u8]) -> (b: bool)
        ensures
            b == !(spec_decode_frame::<T>(bits_of_bytes(data@), 0) is OutOfDomain),
    {
        let mut r = BitReader::from_bytes(data);
        match Self::decode(&mut r) {
            Err(DecodeError::OutOfRange) => false,
            _ => true,
        }
    }

    /// Serialize the frame: the header with a freshly computed checksum,
    /// the body, and zero bits up to a whole byte. A frame whose magic
    /// number is not [`MAGIC_NUMBER`] is refused with an assertion error.
    pub fn to_bytes(&self) -> (res: Result<Vec<u8>, DecodeError>)
        ensures
            self.magic_number == MAGIC_NUMBER ==> (res matches Ok(out) && out@ == bytes_of_bits(
                spec_encode_frame::<T>(self@),
            )),
            self.magic_number != MAGIC_NUMBER ==> res == Err::<Vec<u8>, DecodeError>(DecodeError::Assertion),
    {
        if self.magic_number != MAGIC_NUMBER {
            return Err(DecodeError::Assertion);
        }
        let checksum = self.compute_checksum();
        let mut w = BitWriter::new();
        self.magic_number.encode(&mut w);
        self.message_type.encode(&mut w);
        checksum.encode(&mut w);
        self.packet_index.encode(&mut w);
        self.packet_count.encode(&mut w);
        self.inner.encode_body(&mut w);
        assert(w.bits@ =~= spec_encode_frame::<T>(self@));
        Ok(w.to_bytes())
    }
}

/// A frame as `to_bytes` writes it: the stored checksum replaced by the
/// computed one.
pub open spec fn written_frame<T: FrameBody>(f: PacketFrameView<T::V>) -> PacketFrameView<T::V> {
    PacketFrameView {
        magic_number: f.magic_number,
        message_type: f.message_type,
        checksum: spec_frame_checksum::<T>(f.packet_index, f.packet_count, f.inner),
        packet_index: f.packet_index,
        packet_count: f.packet_count,
        inner: f.inner,
    }
}

/// The bits of the bytes that `to_bytes` writes for a frame.
pub open spec fn frame_stream<T: FrameBody>(f: PacketFrameView<T::V>) -> Seq<bool> {
    bits_of_bytes(bytes_of_bits(spec_encode_frame::<T>(f)))
}

/// In the written bytes of a frame, the header takes the first 64 bits and
/// the body follows it.
pub proof fn lemma_frame_layout<T: FrameBody>(f: PacketFrameView<T::V>)
    ensures
        spec_encode_frame::<T>(f).len() == 64 + T::spec_encode_body(f.inner).len(),
        64 + T::spec_encode_body(f.inner).len() <= frame_stream::<T>(f).len(),
        frame_stream::<T>(f).subrange(64, 64 + T::spec_encode_body(f.inner).len() as int) == T::spec_encode_body(f.inner),
        spec_decode_frame::<T>(frame_stream::<T>(f), 0) == (if f.magic_number == MAGIC_NUMBER {
            T::spec_decode_body(frame_stream::<T>(f), 64).map(
                |inner: T::V| PacketFrameView { inner, ..written_frame::<T>(f) },
            )
        } else {
            Decoded::Failed(DecodeError::Assertion)
        }),
{
    let e = spec_encode_frame::<T>(f);
    let s = frame_stream::<T>(f);
    let c = spec_frame_checksum::<T>(f.packet_index, f.packet_count, f.inner);
    let e0 = u8::spec_encode(f.magic_number);
    let e1 = MessageType::spec_encode(f.message_type);
    let e2 = u32::spec_encode(c);
    let e3 = u8::spec_encode(f.packet_index);
    let e4 = u8::spec_encode(f.packet_count);
    let e5 = T::spec_encode_body(f.inner);
    lemma_bits_bytes_padded(e);
    assert(s.subrange(0, e.len() as int) =~= e);
    lemma_two_pow_values();
    lemma_bits_of_uint_len(f.magic_number as nat, 8);
    lemma_bits_of_uint_len(f.message_type.spec_id(), 8);
    lemma_bits_of_uint_len(c as nat, 32);
    lemma_bits_of_uint_len(f.packet_index as nat, 8);
    lemma_bits_of_uint_len(f.packet_count as nat, 8);
    lemma_split_at(s, 0, e0 + e1 + e2 + e3 + e4, e5);
    lemma_split_at(s, 0, e0 + e1 + e2 + e3, e4);
    lemma_split_at(s, 0, e0 + e1 + e2, e3);
    lemma_split_at(s, 0, e0 + e1, e2);
    lemma_split_at(s, 0, e0, e1);
    u8::lemma_decode_encode(f.magic_number, s, 0);
    MessageType::lemma_decode_encode(f.message_type, s, 8);
    u32::lemma_decode_encode(c, s, 16);
    u8::lemma_decode_encode(f.packet_index, s, 48);
    u8::lemma_decode_encode(f.packet_count, s, 56);
}

/// A frame written by `to_bytes` reads back as written, with the computed
/// checksum, whenever its body reads back from where it stands; and the
/// checksum it reads back with is valid.
pub proof fn lemma_frame_roundtrip<T: FrameBody>(f: PacketFrameView<T::V>)
    requires
        f.magic_number == MAGIC_NUMBER,
        T::spec_decode_body(frame_stream::<T>(f), 64) matches Decoded::Value(v, _) && v == f.inner,
    ensures
        spec_decode_frame::<T>(frame_stream::<T>(f), 0) matches Decoded::Value(g, _) && g == written_frame::<T>(f),
        spec_checksum_valid::<T>(written_frame::<T>(f)),
{
    lemma_frame_layout::<T>(f);
}


/// The wire identifier of each message type: unprotected = 0,
/// tamper-resistant = 1.
///
/// An identifier names exactly the variant whose identifier it is, and
/// nothing else.
pub proof fn lemma_message_type_table()
    ensures
        MessageType::Unprotected.spec_id() == 0,
        MessageType::TamperResistant.spec_id() == 1,
        forall|id: nat, v: MessageType| #![trigger MessageType::spec_from_id(id), v.spec_id()] MessageType::spec_from_id(id) == Some(v) <==> v.spec_id() == id,
        forall|id: nat| #[trigger] MessageType::spec_from_id(id) is None <==> (forall|v: MessageType| v.spec_id() != id),
{
    assert forall|id: nat, v: MessageType| #![trigger MessageType::spec_from_id(id), v.spec_id()] MessageType::spec_from_id(id) == Some(v) <==> v.spec_id() == id by {
        match v {
            MessageType::Unprotected => {},
            MessageType::TamperResistant => {},
        }
    }
    assert forall|id: nat| #[trigger] MessageType::spec_from_id(id) is None <==> (forall|v: MessageType| v.spec_id() != id) by {
        if MessageType::spec_from_id(id) is None {
            assert forall|v: MessageType| v.spec_id() != id by {
                match v {
                    MessageType::Unprotected => {},
                    MessageType::TamperResistant => {},
                }
            }
        } else {
            let v = MessageType::spec_from_id(id).unwrap();
            assert(v.spec_id() == id);
        }
    }
}


/// Every frame opens with the magic byte 206 (`0xCE`), and RPC bodies and
/// state groups are opened or closed by 51385 (`0xC8B9`).
pub proof fn lemma_frame_constants()
    ensures
        MAGIC_NUMBER == 0xCE,
        TERMINATOR == 0xC8B9,
        TERMINATOR == 51385,
{
}

} // verus!
