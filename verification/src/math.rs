//! Vector types of the game's math library that hold no floating-point
//! fields, and the wire form of double-precision vectors.
use crate::bits::{BitReader, BitWriter, DecodeError, Decoded};
use crate::wire::{lemma_split_at, BitAligned, BitCodec};
use vstd::prelude::*;

verus! {

/// `VRageMath.SerializableVector3I`.
#[derive(Debug, Default, Clone, Copy, PartialEq, Eq, Hash)]
pub struct SerializableVector3I {
    pub x: i32,
    pub y: i32,
    pub z: i32,
}

impl SerializableVector3I {
    pub fn new(x: i32, y: i32, z: i32) -> (r: Self)
        ensures
            r.x == x,
            r.y == y,
            r.z == z,
    {
        SerializableVector3I { x, y, z }
    }
}

/// `VRageMath.Vector3I`.
#[derive(Debug, Default, Clone, Copy, PartialEq, Eq, Hash)]
pub struct Vector3I {
    pub x: i32,
    pub y: i32,
    pub z: i32,
}

impl Vector3I {
    pub fn new(x: i32, y: i32, z: i32) -> (r: Self)
        ensures
            r.x == x,
            r.y == y,
            r.z == z,
    {
        Vector3I { x, y, z }
    }
}

/// A double-precision vector on the wire: the IEEE-754 bit patterns of its
/// three coordinates, each written as a little-endian 64-bit number.
#[derive(Copy, Clone, Debug, PartialEq, Eq, Hash, Default)]
pub struct Vector3DBits {
    pub x: BitAligned<u64>,
    pub y: BitAligned<u64>,
    pub z: BitAligned<u64>,
}

impl View for Vector3DBits {
    type V = Vector3DBits;

    open spec fn view(&self) -> Vector3DBits {
        *self
    }
}

impl BitCodec for Vector3DBits {
    open spec fn spec_decode(s: Seq<bool>, pos: int) -> Decoded<Vector3DBits> {
        BitAligned::<u64>::spec_decode(s, pos).and_then(
|x: BitAligned<u64>, p1: int|
BitAligned::<u64>::spec_decode(s, p1).and_then(
|y: BitAligned<u64>, p2: int|
BitAligned::<u64>::spec_decode(s, p2).map(|z: BitAligned<u64>| Vector3DBits { x, y, z })))
    }

    open spec fn spec_encode(v: Vector3DBits) -> Seq<bool> {
        BitAligned::<u64>::spec_encode(v.x) + BitAligned::<u64>::spec_encode(v.y) + BitAligned::<u64>::spec_encode(v.z)
    }

    open spec fn spec_encodable(v: Vector3DBits) -> bool {
        &&& BitAligned::<u64>::spec_encodable(v.x)
        &&& BitAligned::<u64>::spec_encodable(v.y)
        &&& BitAligned::<u64>::spec_encodable(v.z)
    }

    proof fn lemma_decode_encode(v: Vector3DBits, s: Seq<bool>, pos: int) {
        let e0 = BitAligned::<u64>::spec_encode(v.x);
        let e1 = BitAligned::<u64>::spec_encode(v.y);
        let e2 = BitAligned::<u64>::spec_encode(v.z);
        lemma_split_at(s, pos, e0 + e1, e2);
        lemma_split_at(s, pos, e0, e1);
        BitAligned::<u64>::lemma_decode_encode(v.x, s, pos);
        BitAligned::<u64>::lemma_decode_encode(v.y, s, pos + (e0).len());
        BitAligned::<u64>::lemma_decode_encode(v.z, s, pos + (e0 + e1).len());
    }

    fn decode(r: &mut BitReader) -> (res: Result<Vector3DBits, DecodeError>) {
        let x = match BitAligned::<u64>::decode(r) {
            Ok(v) => v,
            Err(e) => {
                return Err(e);
            },
        };
        let y = match BitAligned::<u64>::decode(r) {
            Ok(v) => v,
            Err(e) => {
                return Err(e);
            },
        };
        let z = match BitAligned::<u64>::decode(r) {
            Ok(v) => v,
            Err(e) => {
                return Err(e);
            },
        };
        Ok(Vector3DBits { x, y, z })
    }

    fn encode(&self, w: &mut BitWriter) {
        self.x.encode(w);
        self.y.encode(w);
        self.z.encode(w);
        assert(w.bits@ =~= old(w).bits@ + (BitAligned::<u64>::spec_encode(self@.x) + BitAligned::<u64>::spec_encode(self@.y) + BitAligned::<u64>::spec_encode(self@.z)));
    }
}


/// A vector's coordinates travel in the order x, y, z, each as the 64 bits
/// of its pattern, least significant first: where 192 bits stand at `pos`,
/// x is read from the first 64 of them, y from the next 64 and z from the
/// last 64; and writing a vector puts x's bits first, then y's, then z's.
pub proof fn lemma_vector3d_wire_order(s: Seq<bool>, pos: int, v: Vector3DBits)
    ensures
        0 <= pos && pos + 192 <= s.len() ==> Vector3DBits::spec_decode(s, pos) == Decoded::Value(
            Vector3DBits {
                x: BitAligned(crate::bits::uint_at(s, pos, 64) as u64),
                y: BitAligned(crate::bits::uint_at(s, pos + 64, 64) as u64),
                z: BitAligned(crate::bits::uint_at(s, pos + 128, 64) as u64),
            },
            pos + 192,
        ),
        Vector3DBits::spec_encode(v) == crate::bits::bits_of_uint(v.x.0 as nat, 64) + crate::bits::bits_of_uint(
            v.y.0 as nat,
            64,
        ) + crate::bits::bits_of_uint(v.z.0 as nat, 64),
{
}

} // verus!
