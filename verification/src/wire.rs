//! Bit-stream encodings of the primitive wire types: fixed-size integers
//! at any bit position, single-bit booleans and variable-length integers.
use crate::bits::{
    bits_of_bytes, bits_of_uint, lemma_bits_of_bytes_append, lemma_bits_of_bytes_len,
    lemma_bits_of_bytes_chunk, lemma_bits_of_one_byte, lemma_bits_of_uint_len, lemma_two_pow_add, lemma_two_pow_facts,
    lemma_two_pow_monotone, lemma_two_pow_values, lemma_uint_of_bits_bound, lemma_uint_roundtrip,
    read_as, spec_read_bit, spec_read_uint, two_pow, uint_at, BitReader, BitWriter, DecodeError,
    Decoded,
};
use vstd::prelude::*;
use vstd::utf8::{decode_utf8, encode_utf8, valid_utf8};

verus! {

/// `after` is `before` advanced as `d` says, and `r` is what `d` says,
/// values compared through `f`.
pub open spec fn decoded_by<T, V>(
    before: BitReader,
    after: BitReader,
    r: Result<T, DecodeError>,
    d: Decoded<V>,
    f: spec_fn(T) -> V,
) -> bool {
    &&& after.bits@ == before.bits@
    &&& after.pos <= after.bits@.len()
    &&& match d {
        Decoded::Value(v, end) => r matches Ok(x) && f(x) == v && after.pos == end,
        Decoded::Failed(e) => r == Err::<T, DecodeError>(e) && e != DecodeError::OutOfRange,
        Decoded::OutOfDomain => r == Err::<T, DecodeError>(DecodeError::OutOfRange),
    }
}

/// The views of a vector's elements.
pub open spec fn views<T: View>(v: Vec<T>) -> Seq<T::V> {
    v@.map_values(|x: T| x@)
}

/// `after` is `before` advanced as `d` says, and `r` is what `d` says,
/// values compared by their views.
pub open spec fn decoded_as<T: View>(
    before: BitReader,
    after: BitReader,
    r: Result<T, DecodeError>,
    d: Decoded<T::V>,
) -> bool {
    &&& after.bits@ == before.bits@
    &&& after.pos <= after.bits@.len()
    &&& match d {
        Decoded::Value(v, end) => r matches Ok(x) && x@ == v && after.pos == end,
        Decoded::Failed(e) => r == Err::<T, DecodeError>(e) && e != DecodeError::OutOfRange,
        Decoded::OutOfDomain => r == Err::<T, DecodeError>(DecodeError::OutOfRange),
    }
}

/// A value with a bit-stream encoding: what decoding gives at any
/// position of any stream, what encoding appends, and that decoding an
/// encoding gives the value back. Values are described by their views.
pub trait BitCodec: Sized + View {
    /// The result of decoding at `pos` of `s`.
    spec fn spec_decode(s: Seq<bool>, pos: int) -> Decoded<Self::V>;

    /// The bits that encoding `v` appends.
    spec fn spec_encode(v: Self::V) -> Seq<bool>;

    /// The values whose encoding decodes back to them.
    spec fn spec_encodable(v: Self::V) -> bool;

    /// Decoding finds an encoded value wherever it stands in a stream.
    proof fn lemma_decode_encode(v: Self::V, s: Seq<bool>, pos: int)
        requires
            Self::spec_encodable(v),
            0 <= pos,
            pos + Self::spec_encode(v).len() <= s.len(),
            s.subrange(pos, pos + Self::spec_encode(v).len()) == Self::spec_encode(v),
        ensures
            Self::spec_decode(s, pos) == Decoded::Value(v, pos + Self::spec_encode(v).len()),
    ;

    fn decode(r: &mut BitReader) -> (res: Result<Self, DecodeError>)
        requires
            old(r).wf(),
        ensures
            decoded_as(*old(r), *final(r), res, Self::spec_decode(old(r).bits@, old(r).pos as int)),
    ;

    fn encode(&self, w: &mut BitWriter)
        ensures
            final(w).bits@ == old(w).bits@ + Self::spec_encode(self@),
    ;
}

/// A type whose view is the value itself.
pub trait PlainView: View<V = Self> + Sized {
    proof fn lemma_view_is_self(x: Self)
        ensures
            x@ == x,
    ;
}

impl PlainView for u8 {
    proof fn lemma_view_is_self(x: u8) {
    }
}

impl PlainView for u16 {
    proof fn lemma_view_is_self(x: u16) {
    }
}

impl PlainView for u32 {
    proof fn lemma_view_is_self(x: u32) {
    }
}

impl PlainView for u64 {
    proof fn lemma_view_is_self(x: u64) {
    }
}

impl PlainView for i8 {
    proof fn lemma_view_is_self(x: i8) {
    }
}

impl PlainView for i16 {
    proof fn lemma_view_is_self(x: i16) {
    }
}

impl PlainView for i32 {
    proof fn lemma_view_is_self(x: i32) {
    }
}

impl PlainView for i64 {
    proof fn lemma_view_is_self(x: i64) {
    }
}

/// Fixed-size integers stored little-endian: `spec_width` bits holding the
/// two's-complement pattern `spec_to_uint`.
pub trait LeBytes: Sized + Copy {
    spec fn spec_width() -> nat;

    spec fn spec_to_uint(v: Self) -> nat;

    spec fn spec_from_uint(u: nat) -> Self;

    proof fn lemma_le_bytes(v: Self)
        ensures
            Self::spec_width() <= 64,
            Self::spec_to_uint(v) < two_pow(Self::spec_width()),
            Self::spec_from_uint(Self::spec_to_uint(v)) == v,
    ;

    fn width() -> (n: usize)
        ensures
            n == Self::spec_width(),
            n <= 64,
    ;

    fn to_uint(self) -> (u: u64)
        ensures
            u == Self::spec_to_uint(self),
    ;

    fn from_uint(u: u64) -> (v: Self)
        requires
            u < two_pow(Self::spec_width()),
        ensures
            v == Self::spec_from_uint(u as nat),
    ;
}

impl LeBytes for u8 {
    open spec fn spec_width() -> nat {
        8
    }

    open spec fn spec_to_uint(v: u8) -> nat {
        v as nat
    }

    open spec fn spec_from_uint(u: nat) -> u8 {
        u as u8
    }

    proof fn lemma_le_bytes(v: u8) {
        lemma_two_pow_values();
    }

    fn width() -> usize {
        8
    }

    fn to_uint(self) -> u64 {
        self as u64
    }

    fn from_uint(u: u64) -> u8 {
        proof {
            lemma_two_pow_values();
        }
        u as u8
    }
}

impl LeBytes for u16 {
    open spec fn spec_width() -> nat {
        16
    }

    open spec fn spec_to_uint(v: u16) -> nat {
        v as nat
    }

    open spec fn spec_from_uint(u: nat) -> u16 {
        u as u16
    }

    proof fn lemma_le_bytes(v: u16) {
        lemma_two_pow_values();
    }

    fn width() -> usize {
        16
    }

    fn to_uint(self) -> u64 {
        self as u64
    }

    fn from_uint(u: u64) -> u16 {
        proof {
            lemma_two_pow_values();
        }
        u as u16
    }
}

impl LeBytes for u32 {
    open spec fn spec_width() -> nat {
        32
    }

    open spec fn spec_to_uint(v: u32) -> nat {
        v as nat
    }

    open spec fn spec_from_uint(u: nat) -> u32 {
        u as u32
    }

    proof fn lemma_le_bytes(v: u32) {
        lemma_two_pow_values();
    }

    fn width() -> usize {
        32
    }

    fn to_uint(self) -> u64 {
        self as u64
    }

    fn from_uint(u: u64) -> u32 {
        proof {
            lemma_two_pow_values();
        }
        u as u32
    }
}

impl LeBytes for u64 {
    open spec fn spec_width() -> nat {
        64
    }

    open spec fn spec_to_uint(v: u64) -> nat {
        v as nat
    }

    open spec fn spec_from_uint(u: nat) -> u64 {
        u as u64
    }

    proof fn lemma_le_bytes(v: u64) {
        lemma_two_pow_values();
    }

    fn width() -> usize {
        64
    }

    fn to_uint(self) -> u64 {
        self
    }

    fn from_uint(u: u64) -> u64 {
        u
    }
}

impl LeBytes for i8 {
    open spec fn spec_width() -> nat {
        8
    }

    open spec fn spec_to_uint(v: i8) -> nat {
        (v as u8) as nat
    }

    open spec fn spec_from_uint(u: nat) -> i8 {
        (u as u8) as i8
    }

    proof fn lemma_le_bytes(v: i8) {
        lemma_two_pow_values();
        assert(((v as u8) as i8) == v) by (bit_vector);
    }

    fn width() -> usize {
        8
    }

    fn to_uint(self) -> u64 {
        (self as u8) as u64
    }

    fn from_uint(u: u64) -> i8 {
        proof {
            lemma_two_pow_values();
        }
        (u as u8) as i8
    }
}

impl LeBytes for i16 {
    open spec fn spec_width() -> nat {
        16
    }

    open spec fn spec_to_uint(v: i16) -> nat {
        (v as u16) as nat
    }

    open spec fn spec_from_uint(u: nat) -> i16 {
        (u as u16) as i16
    }

    proof fn lemma_le_bytes(v: i16) {
        lemma_two_pow_values();
        assert(((v as u16) as i16) == v) by (bit_vector);
    }

    fn width() -> usize {
        16
    }

    fn to_uint(self) -> u64 {
        (self as u16) as u64
    }

    fn from_uint(u: u64) -> i16 {
        proof {
            lemma_two_pow_values();
        }
        (u as u16) as i16
    }
}

impl LeBytes for i32 {
    open spec fn spec_width() -> nat {
        32
    }

    open spec fn spec_to_uint(v: i32) -> nat {
        (v as u32) as nat
    }

    open spec fn spec_from_uint(u: nat) -> i32 {
        (u as u32) as i32
    }

    proof fn lemma_le_bytes(v: i32) {
        lemma_two_pow_values();
        assert(((v as u32) as i32) == v) by (bit_vector);
    }

    fn width() -> usize {
        32
    }

    fn to_uint(self) -> u64 {
        (self as u32) as u64
    }

    fn from_uint(u: u64) -> i32 {
        proof {
            lemma_two_pow_values();
        }
        (u as u32) as i32
    }
}

impl LeBytes for i64 {
    open spec fn spec_width() -> nat {
        64
    }

    open spec fn spec_to_uint(v: i64) -> nat {
        (v as u64) as nat
    }

    open spec fn spec_from_uint(u: nat) -> i64 {
        (u as u64) as i64
    }

    proof fn lemma_le_bytes(v: i64) {
        lemma_two_pow_values();
        assert(((v as u64) as i64) == v) by (bit_vector);
    }

    fn width() -> usize {
        64
    }

    fn to_uint(self) -> u64 {
        self as u64
    }

    fn from_uint(u: u64) -> i64 {
        u as i64
    }
}

/// A fixed-size number read and written byte by byte at any bit
/// position of the stream, as the game's bit stream does.
#[derive(Copy, Clone, Debug, PartialEq, Eq, Hash, PartialOrd, Ord, Default)]
pub struct BitAligned<T: Copy>(pub T);

impl<T: Copy> BitAligned<T> {
    pub fn new(value: T) -> (r: Self)
        ensures
            r.0 == value,
    {
        BitAligned(value)
    }

    pub fn into_inner(self) -> (r: T)
        ensures
            r == self.0,
    {
        self.0
    }

    pub fn get(&self) -> (r: T)
        ensures
            r == self.0,
    {
        self.0
    }
}

impl<T: Copy> View for BitAligned<T> {
    type V = BitAligned<T>;

    open spec fn view(&self) -> BitAligned<T> {
        *self
    }
}

impl<T: LeBytes> BitCodec for BitAligned<T> {
    open spec fn spec_decode(s: Seq<bool>, pos: int) -> Decoded<BitAligned<T>> {
        match spec_read_uint(s, pos, T::spec_width()) {
            Decoded::Value(u, end) => Decoded::Value(BitAligned(T::spec_from_uint(u as nat)), end),
            Decoded::Failed(e) => Decoded::Failed(e),
            Decoded::OutOfDomain => Decoded::OutOfDomain,
        }
    }

    open spec fn spec_encode(v: BitAligned<T>) -> Seq<bool> {
        bits_of_uint(T::spec_to_uint(v.0), T::spec_width())
    }

    open spec fn spec_encodable(v: BitAligned<T>) -> bool {
        true
    }

    proof fn lemma_decode_encode(v: BitAligned<T>, s: Seq<bool>, pos: int) {
        T::lemma_le_bytes(v.0);
        lemma_bits_of_uint_len(T::spec_to_uint(v.0), T::spec_width());
        lemma_uint_roundtrip(T::spec_to_uint(v.0), T::spec_width());
        lemma_two_pow_monotone(T::spec_width(), 64);
        lemma_two_pow_values();
    }

    fn decode(r: &mut BitReader) -> (res: Result<BitAligned<T>, DecodeError>) {
        let n = T::width();
        match r.read_uint(n) {
            Ok(u) => {
                proof {
                    lemma_uint_of_bits_bound(old(r).bits@.subrange(old(r).pos as int, old(r).pos + n));
                }
                Ok(BitAligned(T::from_uint(u)))
            },
            Err(e) => Err(e),
        }
    }

    fn encode(&self, w: &mut BitWriter) {
        proof {
            T::lemma_le_bytes(self.0);
        }
        w.write_uint(self.0.to_uint(), T::width());
    }
}

/// A single-bit boolean, as the game's bit stream writes booleans.
#[derive(Copy, Clone, Debug, PartialEq, Eq, Hash, PartialOrd, Ord, Default)]
pub struct BitBool(pub bool);

impl BitBool {
    pub fn new(value: bool) -> (r: Self)
        ensures
            r.0 == value,
    {
        BitBool(value)
    }

    /// The inner value.
    pub fn get(&self) -> (r: bool)
        ensures
            r == self.0,
    {
        self.0
    }
}

impl View for BitBool {
    type V = BitBool;

    open spec fn view(&self) -> BitBool {
        *self
    }
}

impl BitCodec for BitBool {
    open spec fn spec_decode(s: Seq<bool>, pos: int) -> Decoded<BitBool> {
        match spec_read_bit(s, pos) {
            Decoded::Value(b, end) => Decoded::Value(BitBool(b), end),
            Decoded::Failed(e) => Decoded::Failed(e),
            Decoded::OutOfDomain => Decoded::OutOfDomain,
        }
    }

    open spec fn spec_encode(v: BitBool) -> Seq<bool> {
        seq![v.0]
    }

    open spec fn spec_encodable(v: BitBool) -> bool {
        true
    }

    proof fn lemma_decode_encode(v: BitBool, s: Seq<bool>, pos: int) {
        assert(s.subrange(pos, pos + 1)[0] == s[pos]);
    }

    fn decode(r: &mut BitReader) -> (res: Result<BitBool, DecodeError>) {
        match r.read_bit() {
            Ok(b) => Ok(BitBool(b)),
            Err(e) => Err(e),
        }
    }

    fn encode(&self, w: &mut BitWriter) {
        w.write_bit(self.0);
    }
}

/// The contribution of the `k`-th byte of a variable-length integer: its
/// seven low bits at bit `7k`; a tenth byte only has room for one bit.
pub open spec fn varint_chunk(byte: nat, k: nat) -> nat {
    if k < 9 {
        (byte % 128) * two_pow(7 * k)
    } else {
        (byte % 2) * two_pow(63)
    }
}

/// Decoding a variable-length integer from its `k`-th byte on, with `acc`
/// the value of the bytes before: bytes with the high bit set continue,
/// and at most ten bytes are read.
pub open spec fn spec_varint_from(s: Seq<bool>, pos: int, k: nat, acc: nat) -> Decoded<u64>
    decreases 10 - k,
{
    if k >= 10 {
        Decoded::Failed(DecodeError::VarintTooLong)
    } else if pos + 8 > s.len() {
        Decoded::Failed(DecodeError::Incomplete)
    } else {
        let byte = uint_at(s, pos, 8);
        let acc2 = acc + varint_chunk(byte, k);
        if byte < 128 {
            Decoded::Value(acc2 as u64, pos + 8)
        } else {
            spec_varint_from(s, pos + 8, k + 1, acc2)
        }
    }
}

/// Decoding a 64-bit variable-length integer never leaves the domain.
pub proof fn lemma_varint_in_domain(s: Seq<bool>, pos: int, k: nat, acc: nat)
    ensures
        !(spec_varint_from(s, pos, k, acc) is OutOfDomain),
    decreases 10 - k,
{
    if k < 10 && pos + 8 <= s.len() {
        let byte = uint_at(s, pos, 8);
        lemma_varint_in_domain(s, pos + 8, k + 1, acc + varint_chunk(byte, k));
    }
}

/// A variable-length integer at `pos`.
pub open spec fn spec_read_varint(s: Seq<bool>, pos: int) -> Decoded<u64> {
    spec_varint_from(s, pos, 0, 0)
}

/// The bytes of the variable-length encoding of `v`: seven bits per byte,
/// least significant group first, the high bit set on every byte but the
/// last.
pub open spec fn spec_varint_bytes(v: nat) -> Seq<u8>
    decreases v,
{
    if v < 128 {
        seq![v as u8]
    } else {
        seq![(v % 128 + 128) as u8] + spec_varint_bytes(v / 128)
    }
}

pub proof fn lemma_varint_bytes_len(v: nat)
    ensures
        1 <= spec_varint_bytes(v).len() <= 10 || v >= two_pow(64),
        v < 128 ==> spec_varint_bytes(v).len() == 1,
    decreases v,
{
    lemma_two_pow_values();
    if v >= 128 {
        lemma_varint_bytes_len(v / 128);
        if v < two_pow(64) {
            lemma_varint_len_bound(v, 0);
        }
    }
}

proof fn lemma_varint_len_bound(v: nat, k: nat)
    requires
        k <= 9,
        v < two_pow((64 - 7 * k) as nat),
    ensures
        spec_varint_bytes(v).len() <= 10 - k,
        spec_varint_bytes(v).len() >= 1,
    decreases v,
{
    lemma_two_pow_values();
    if v >= 128 {
        if k == 9 {
            assert(two_pow(1) == 2);
        } else {
            lemma_two_pow_add(7, (64 - 7 * (k + 1)) as nat);
            lemma_varint_len_bound(v / 128, k + 1);
        }
    }
}

/// Decoding the variable-length bytes of `w` from byte `k` on adds
/// `w * 2^(7k)` to what the earlier bytes gave.
proof fn lemma_varint_from_encoded(s: Seq<bool>, pos: int, k: nat, acc: nat, w: nat)
    requires
        k <= 9,
        acc < two_pow(7 * k),
        w < two_pow((64 - 7 * k) as nat),
        0 <= pos,
        pos + 8 * spec_varint_bytes(w).len() <= s.len(),
        s.subrange(pos, pos + 8 * spec_varint_bytes(w).len()) == bits_of_bytes(
            spec_varint_bytes(w),
        ),
    ensures
        spec_varint_from(s, pos, k, acc) == Decoded::Value(
            (acc + w * two_pow(7 * k)) as u64,
            pos + 8 * spec_varint_bytes(w).len(),
        ),
        acc + w * two_pow(7 * k) < two_pow(64),
    decreases w,
{
    lemma_two_pow_values();
    lemma_two_pow_add(7 * k, (64 - 7 * k) as nat);
    let bytes = spec_varint_bytes(w);
    let b0 = bytes[0];
    let rest = bytes.drop_first();
    assert(bytes =~= seq![b0] + rest);
    lemma_bits_of_bytes_append(seq![b0], rest);
    lemma_bits_of_one_byte(b0);
    lemma_bits_of_uint_len(b0 as nat, 8);
    lemma_bits_of_bytes_len(bytes);
    lemma_bits_of_bytes_len(rest);
    let all = bits_of_bytes(bytes);
    assert(s.subrange(pos, pos + 8) =~= all.subrange(0, 8));
    assert(all.subrange(0, 8) =~= bits_of_uint(b0 as nat, 8));
    lemma_uint_roundtrip(b0 as nat, 8);
    assert(uint_at(s, pos, 8) == b0);
    let p = two_pow(7 * k);
    if w < 128 {
        assert(b0 == w);
        if k == 9 {
            assert(w < 2);
            assert(varint_chunk(w, k) == w * p);
        } else {
            assert(varint_chunk(w, k) == w * p);
        }
        assert(acc + w * p < two_pow(64)) by (nonlinear_arith)
            requires
                acc < p,
                w < two_pow((64 - 7 * k) as nat),
                two_pow(64) == p * two_pow((64 - 7 * k) as nat),
        ;
    } else {
        assert(k < 9);
        assert(b0 as nat == w % 128 + 128);
        assert(varint_chunk(b0 as nat, k) == (w % 128) * p);
        let acc2 = acc + (w % 128) * p;
        lemma_two_pow_add(7 * k, 7);
        assert(7 * k + 7 == 7 * (k + 1));
        let p2 = two_pow(7 * (k + 1));
        assert(p2 == p * 128);
        assert(acc2 < p2) by (nonlinear_arith)
            requires
                acc < p,
                w % 128 < 128,
                acc2 == acc + (w % 128) * p,
                p2 == p * 128,
        ;
        let q = two_pow((64 - 7 * (k + 1)) as nat);
        lemma_two_pow_add(7, (64 - 7 * (k + 1)) as nat);
        assert(two_pow((64 - 7 * k) as nat) == 128 * q);
        assert(w / 128 < q);
        assert(rest == spec_varint_bytes(w / 128));
        assert(s.subrange(pos + 8, pos + 8 + 8 * rest.len()) =~= all.subrange(8, all.len() as int));
        assert(all.subrange(8, all.len() as int) =~= bits_of_bytes(rest));
        lemma_varint_from_encoded(s, pos + 8, k + 1, acc2, w / 128);
        assert(acc2 + (w / 128) * p2 == acc + w * p) by (nonlinear_arith)
            requires
                acc2 == acc + (w % 128) * p,
                p2 == p * 128,
                w == (w % 128) + 128 * (w / 128),
        ;
    }
}

/// Decoding the variable-length encoding of a 64-bit value gives it back.
pub proof fn lemma_varint_roundtrip(v: u64, s: Seq<bool>, pos: int)
    requires
        0 <= pos,
        pos + 8 * spec_varint_bytes(v as nat).len() <= s.len(),
        s.subrange(pos, pos + 8 * spec_varint_bytes(v as nat).len()) == bits_of_bytes(
            spec_varint_bytes(v as nat),
        ),
    ensures
        spec_read_varint(s, pos) == Decoded::Value(v, pos + 8 * spec_varint_bytes(v as nat).len()),
{
    lemma_two_pow_values();
    assert(two_pow(0) == 1);
    lemma_varint_from_encoded(s, pos, 0, 0, v as nat);
    assert(v as nat * two_pow(0) == v);
}

/// Read a variable-length integer.
pub fn read_varint(r: &mut BitReader) -> (res: Result<u64, DecodeError>)
    requires
        old(r).wf(),
    ensures
        read_as(*old(r), *final(r), res, spec_read_varint(old(r).bits@, old(r).pos as int)),
{
    let ghost s = r.bits@;
    let ghost pos0 = r.pos as int;
    let mut value: u64 = 0;
    let mut mult: u64 = 1;
    let mut k: usize = 0;
    proof {
        lemma_two_pow_values();
    }
    while k < 10
        invariant
            r.wf(),
            r.bits@ == s,
            s == old(r).bits@,
            pos0 == old(r).pos,
            k <= 10,
            k <= 9 ==> mult == two_pow(7 * k as nat),
            k <= 9 ==> value < two_pow(7 * k as nat),
            two_pow(64) == 0x1_0000_0000_0000_0000,
            spec_varint_from(s, r.pos as int, k as nat, value as nat) == spec_read_varint(s, pos0),
        decreases 10 - k,
    {
        let ghost pos = r.pos as int;
        let byte = match r.read_uint(8) {
            Ok(b) => b,
            Err(e) => {
                assert(pos + 8 > s.len());
                assert(e == DecodeError::Incomplete);
                assert(spec_varint_from(s, pos, k as nat, value as nat) == Decoded::<u64>::Failed(
                    DecodeError::Incomplete,
                ));
                return Err(e);
            },
        };
        proof {
            lemma_uint_of_bits_bound(s.subrange(pos, pos + 8));
            lemma_two_pow_values();
            assert(byte == uint_at(s, pos, 8));
            lemma_two_pow_add(7 * k as nat, 7);
            assert(7 * k + 7 == 7 * (k + 1));
        }
        let chunk: u64 = if k < 9 {
            assert((byte % 128) * mult < two_pow(7 * (k + 1) as nat)) by (nonlinear_arith)
                requires
                    byte % 128 < 128,
                    mult >= 1,
                    two_pow(7 * (k + 1) as nat) == mult * 128,
            ;
            proof {
                lemma_two_pow_monotone(7 * (k + 1) as nat, 63);
            }
            (byte % 128) * mult
        } else {
            assert(7 * k == 63);
            (byte % 2) * mult
        };
        proof {
            if k < 9 {
                lemma_two_pow_monotone(7 * (k + 1) as nat, 63);
                assert(value + chunk < two_pow(7 * (k + 1) as nat)) by (nonlinear_arith)
                    requires
                        value < mult,
                        chunk == (byte % 128) * mult,
                        byte % 128 <= 127,
                        two_pow(7 * (k + 1) as nat) == mult * 128,
                ;
            }
            lemma_two_pow_facts(63);
            lemma_two_pow_facts(7 * k as nat);
            assert(chunk == varint_chunk(byte as nat, k as nat));
        }
        value = value + chunk;
        if byte < 128 {
            return Ok(value);
        }
        k = k + 1;
        if k < 10 {
            mult = mult * 128;
        }
    }
    Err(DecodeError::VarintTooLong)
}

/// The bytes of the variable-length encoding of `v`.
pub fn varint_bytes(v: u64) -> (out: Vec<u8>)
    ensures
        out@ == spec_varint_bytes(v as nat),
{
    let mut out: Vec<u8> = Vec::new();
    let mut value = v;
    loop
        invariant
            out@ + spec_varint_bytes(value as nat) == spec_varint_bytes(v as nat),
        decreases value,
    {
        if value < 128 {
            out.push(value as u8);
            assert(out@ =~= spec_varint_bytes(v as nat));
            return out;
        }
        let ghost before = out@;
        out.push((value % 128 + 128) as u8);
        assert(before + spec_varint_bytes(value as nat) =~= out@ + spec_varint_bytes(
            (value / 128) as nat,
        ));
        value = value / 128;
    }
}

/// Append the variable-length encoding of `v`.
pub fn write_varint(w: &mut BitWriter, v: u64)
    ensures
        final(w).bits@ == old(w).bits@ + bits_of_bytes(spec_varint_bytes(v as nat)),
{
    let bytes = varint_bytes(v);
    w.write_bytes(bytes.as_slice());
}

/// The unsigned integer types a variable-length integer may hold.
pub trait VarintUint: LeBytes {
}

impl VarintUint for u8 {
}

impl VarintUint for u16 {
}

impl VarintUint for u32 {
}

impl VarintUint for u64 {
}

impl BitCodec for u8 {
    open spec fn spec_decode(s: Seq<bool>, pos: int) -> Decoded<u8> {
        BitAligned::<u8>::spec_decode(s, pos).map(|b: BitAligned<u8>| b.0)
    }

    open spec fn spec_encode(v: u8) -> Seq<bool> {
        BitAligned::<u8>::spec_encode(BitAligned(v))
    }

    open spec fn spec_encodable(v: u8) -> bool {
        true
    }

    proof fn lemma_decode_encode(v: u8, s: Seq<bool>, pos: int) {
        BitAligned::<u8>::lemma_decode_encode(BitAligned(v), s, pos);
    }

    fn decode(r: &mut BitReader) -> (res: Result<u8, DecodeError>) {
        match BitAligned::<u8>::decode(r) {
            Ok(b) => Ok(b.0),
            Err(e) => Err(e),
        }
    }

    fn encode(&self, w: &mut BitWriter) {
        BitAligned(*self).encode(w);
    }
}

impl BitCodec for u32 {
    open spec fn spec_decode(s: Seq<bool>, pos: int) -> Decoded<u32> {
        BitAligned::<u32>::spec_decode(s, pos).map(|b: BitAligned<u32>| b.0)
    }

    open spec fn spec_encode(v: u32) -> Seq<bool> {
        BitAligned::<u32>::spec_encode(BitAligned(v))
    }

    open spec fn spec_encodable(v: u32) -> bool {
        true
    }

    proof fn lemma_decode_encode(v: u32, s: Seq<bool>, pos: int) {
        BitAligned::<u32>::lemma_decode_encode(BitAligned(v), s, pos);
    }

    fn decode(r: &mut BitReader) -> (res: Result<u32, DecodeError>) {
        match BitAligned::<u32>::decode(r) {
            Ok(b) => Ok(b.0),
            Err(e) => Err(e),
        }
    }

    fn encode(&self, w: &mut BitWriter) {
        BitAligned(*self).encode(w);
    }
}

impl BitCodec for i32 {
    open spec fn spec_decode(s: Seq<bool>, pos: int) -> Decoded<i32> {
        BitAligned::<i32>::spec_decode(s, pos).map(|b: BitAligned<i32>| b.0)
    }

    open spec fn spec_encode(v: i32) -> Seq<bool> {
        BitAligned::<i32>::spec_encode(BitAligned(v))
    }

    open spec fn spec_encodable(v: i32) -> bool {
        true
    }

    proof fn lemma_decode_encode(v: i32, s: Seq<bool>, pos: int) {
        BitAligned::<i32>::lemma_decode_encode(BitAligned(v), s, pos);
    }

    fn decode(r: &mut BitReader) -> (res: Result<i32, DecodeError>) {
        match BitAligned::<i32>::decode(r) {
            Ok(b) => Ok(b.0),
            Err(e) => Err(e),
        }
    }

    fn encode(&self, w: &mut BitWriter) {
        BitAligned(*self).encode(w);
    }
}

impl BitCodec for i64 {
    open spec fn spec_decode(s: Seq<bool>, pos: int) -> Decoded<i64> {
        BitAligned::<i64>::spec_decode(s, pos).map(|b: BitAligned<i64>| b.0)
    }

    open spec fn spec_encode(v: i64) -> Seq<bool> {
        BitAligned::<i64>::spec_encode(BitAligned(v))
    }

    open spec fn spec_encodable(v: i64) -> bool {
        true
    }

    proof fn lemma_decode_encode(v: i64, s: Seq<bool>, pos: int) {
        BitAligned::<i64>::lemma_decode_encode(BitAligned(v), s, pos);
    }

    fn decode(r: &mut BitReader) -> (res: Result<i64, DecodeError>) {
        match BitAligned::<i64>::decode(r) {
            Ok(b) => Ok(b.0),
            Err(e) => Err(e),
        }
    }

    fn encode(&self, w: &mut BitWriter) {
        BitAligned(*self).encode(w);
    }
}

impl BitCodec for u64 {
    open spec fn spec_decode(s: Seq<bool>, pos: int) -> Decoded<u64> {
        BitAligned::<u64>::spec_decode(s, pos).map(|b: BitAligned<u64>| b.0)
    }

    open spec fn spec_encode(v: u64) -> Seq<bool> {
        BitAligned::<u64>::spec_encode(BitAligned(v))
    }

    open spec fn spec_encodable(v: u64) -> bool {
        true
    }

    proof fn lemma_decode_encode(v: u64, s: Seq<bool>, pos: int) {
        BitAligned::<u64>::lemma_decode_encode(BitAligned(v), s, pos);
    }

    fn decode(r: &mut BitReader) -> (res: Result<u64, DecodeError>) {
        match BitAligned::<u64>::decode(r) {
            Ok(b) => Ok(b.0),
            Err(e) => Err(e),
        }
    }

    fn encode(&self, w: &mut BitWriter) {
        BitAligned(*self).encode(w);
    }
}

/// Variable-length quantity: seven bits per byte, least significant group
/// first, the high bit of each byte but the last set.
#[derive(Copy, Clone, Debug, PartialEq, Eq, Hash, Default)]
pub struct Varint<T: Copy>(pub T);

impl<T: Copy> Varint<T> {
    pub fn new(value: T) -> (r: Self)
        ensures
            r.0 == value,
    {
        Varint(value)
    }

    pub fn into_inner(self) -> (r: T)
        ensures
            r == self.0,
    {
        self.0
    }

    pub fn get(&self) -> (r: T)
        ensures
            r == self.0,
    {
        self.0
    }
}

impl<T: Copy> View for Varint<T> {
    type V = Varint<T>;

    open spec fn view(&self) -> Varint<T> {
        *self
    }
}

impl<T: VarintUint> BitCodec for Varint<T> {
    /// A decoded number the target type cannot hold is outside the domain.
    open spec fn spec_decode(s: Seq<bool>, pos: int) -> Decoded<Varint<T>> {
        match spec_read_varint(s, pos) {
            Decoded::Value(w, end) => if w < two_pow(T::spec_width()) {
                Decoded::Value(Varint(T::spec_from_uint(w as nat)), end)
            } else {
                Decoded::OutOfDomain
            },
            Decoded::Failed(e) => Decoded::Failed(e),
            Decoded::OutOfDomain => Decoded::OutOfDomain,
        }
    }

    open spec fn spec_encode(v: Varint<T>) -> Seq<bool> {
        bits_of_bytes(spec_varint_bytes(T::spec_to_uint(v.0)))
    }

    open spec fn spec_encodable(v: Varint<T>) -> bool {
        true
    }

    proof fn lemma_decode_encode(v: Varint<T>, s: Seq<bool>, pos: int) {
        T::lemma_le_bytes(v.0);
        lemma_two_pow_monotone(T::spec_width(), 64);
        lemma_two_pow_values();
        let u = T::spec_to_uint(v.0);
        lemma_bits_of_bytes_len(spec_varint_bytes(u));
        lemma_varint_roundtrip(u as u64, s, pos);
    }

    fn decode(r: &mut BitReader) -> (res: Result<Varint<T>, DecodeError>) {
        proof {
            lemma_varint_in_domain(r.bits@, r.pos as int, 0, 0);
        }
        match read_varint(r) {
            Ok(w) => {
                let n = T::width();
                if n < 64 {
                    proof {
                        lemma_two_pow_values();
                    }
                    assert(two_pow(n as nat) <= 0x8000_0000_0000_0000) by {
                        lemma_two_pow_monotone(n as nat, 63);
                        lemma_two_pow_facts(63);
                    }
                    let limit: u64 = 1u64 << (n as u64);
                    assert(limit == two_pow(n as nat)) by {
                        lemma_two_pow_shift(n as nat);
                    }
                    if w >= limit {
                        return Err(DecodeError::OutOfRange);
                    }
                } else {
                    proof {
                        lemma_two_pow_values();
                    }
                }
                Ok(Varint(T::from_uint(w)))
            },
            Err(e) => Err(e),
        }
    }

    fn encode(&self, w: &mut BitWriter) {
        write_varint(w, self.0.to_uint());
    }
}

/// `1 << n` is `2^n` for `n < 64`.
pub proof fn lemma_two_pow_shift(n: nat)
    requires
        n < 64,
    ensures
        (1u64 << (n as u64)) as nat == two_pow(n),
    decreases n,
{
    if n == 0 {
        assert((1u64 << 0u64) == 1) by (bit_vector);
    } else {
        lemma_two_pow_shift((n - 1) as nat);
        let m = (n - 1) as u64;
        assert(m < 63 ==> (1u64 << (m + 1)) == 2 * (1u64 << m)) by (bit_vector);
    }
}

/// The `n` bytes whose bits stand at `pos`.
pub open spec fn bytes_at(s: Seq<bool>, pos: int, n: nat) -> Seq<u8> {
    Seq::new(n, |j: int| uint_at(s, pos + 8 * j, 8) as u8)
}

/// `n` whole bytes at `pos`.
pub open spec fn spec_read_bytes(s: Seq<bool>, pos: int, n: nat) -> Decoded<Seq<u8>> {
    if pos + 8 * n <= s.len() {
        Decoded::Value(bytes_at(s, pos, n), pos + 8 * n)
    } else {
        Decoded::Failed(DecodeError::Incomplete)
    }
}

/// Bytes written at `pos` are read back there.
pub proof fn lemma_bytes_at_written(s: Seq<bool>, pos: int, bs: Seq<u8>)
    requires
        0 <= pos,
        pos + 8 * bs.len() <= s.len(),
        s.subrange(pos, pos + 8 * bs.len()) == bits_of_bytes(bs),
    ensures
        bytes_at(s, pos, bs.len()) == bs,
{
    lemma_two_pow_values();
    assert forall|j: int| 0 <= j < bs.len() implies bytes_at(s, pos, bs.len())[j] == bs[j] by {
        lemma_bits_of_bytes_chunk(bs, j);
        assert(s.subrange(pos + 8 * j, pos + 8 * j + 8) =~= bits_of_bytes(bs).subrange(
            8 * j,
            8 * j + 8,
        ));
        lemma_uint_roundtrip(bs[j] as nat, 8);
    }
    assert(bytes_at(s, pos, bs.len()) =~= bs);
}

/// Read `n` whole bytes.
pub fn read_bytes(r: &mut BitReader, n: usize) -> (res: Result<Vec<u8>, DecodeError>)
    requires
        old(r).wf(),
    ensures
        decoded_as(*old(r), *final(r), res, spec_read_bytes(old(r).bits@, old(r).pos as int, n as nat)),
{
    if n > r.remaining() / 8 {
        return Err(DecodeError::Incomplete);
    }
    let ghost s = r.bits@;
    let ghost pos0 = r.pos as int;
    let mut out: Vec<u8> = Vec::new();
    let mut i: usize = 0;
    while i < n
        invariant
            r.wf(),
            r.bits@ == s,
            s == old(r).bits@,
            pos0 == old(r).pos,
            pos0 + 8 * n <= s.len(),
            i <= n,
            r.pos == pos0 + 8 * i,
            out@ =~= bytes_at(s, pos0, i as nat),
        decreases n - i,
    {
        let b = match r.read_uint(8) {
            Ok(b) => b,
            Err(e) => {
                assert(false);
                return Err(e);
            },
        };
        proof {
            lemma_uint_of_bits_bound(s.subrange(pos0 + 8 * i, pos0 + 8 * i + 8));
            lemma_two_pow_values();
        }
        out.push(b as u8);
        i = i + 1;
    }
    Ok(out)
}

/// The encoding of a sequence of values: their encodings one after another.
pub open spec fn spec_encode_seq<T: BitCodec>(vs: Seq<T::V>) -> Seq<bool>
    decreases vs.len(),
{
    if vs.len() == 0 {
        Seq::empty()
    } else {
        spec_encode_seq::<T>(vs.drop_last()) + T::spec_encode(vs.last())
    }
}

/// Decoding `n` values one after another.
pub open spec fn spec_decode_seq<T: BitCodec>(s: Seq<bool>, pos: int, n: nat) -> Decoded<Seq<T::V>>
    decreases n,
{
    if n == 0 {
        Decoded::Value(Seq::empty(), pos)
    } else {
        match T::spec_decode(s, pos) {
            Decoded::Value(v, p) => match spec_decode_seq::<T>(s, p, (n - 1) as nat) {
                Decoded::Value(vs, q) => Decoded::Value(seq![v] + vs, q),
                Decoded::Failed(e) => Decoded::Failed(e),
                Decoded::OutOfDomain => Decoded::OutOfDomain,
            },
            Decoded::Failed(e) => Decoded::Failed(e),
            Decoded::OutOfDomain => Decoded::OutOfDomain,
        }
    }
}

/// `d` with `prefix` put before the values it decoded.
pub open spec fn prepend_values<V>(prefix: Seq<V>, d: Decoded<Seq<V>>) -> Decoded<Seq<V>> {
    match d {
        Decoded::Value(vs, q) => Decoded::Value(prefix + vs, q),
        Decoded::Failed(e) => Decoded::Failed(e),
        Decoded::OutOfDomain => Decoded::OutOfDomain,
    }
}

pub proof fn lemma_encode_seq_front<T: BitCodec>(vs: Seq<T::V>)
    requires
        vs.len() > 0,
    ensures
        spec_encode_seq::<T>(vs) == T::spec_encode(vs[0]) + spec_encode_seq::<T>(vs.drop_first()),
    decreases vs.len(),
{
    if vs.len() == 1 {
        assert(vs.drop_last() =~= Seq::<T::V>::empty());
        assert(vs.drop_first() =~= Seq::<T::V>::empty());
        assert(spec_encode_seq::<T>(vs.drop_first()) =~= Seq::<bool>::empty());
        assert(spec_encode_seq::<T>(vs) =~= T::spec_encode(vs[0]));
        assert(T::spec_encode(vs[0]) + Seq::<bool>::empty() =~= T::spec_encode(vs[0]));
    } else {
        lemma_encode_seq_front::<T>(vs.drop_last());
        assert(vs.drop_last().drop_first() =~= vs.drop_first().drop_last());
        assert(vs.drop_first().last() == vs.last());
        assert(vs.drop_last()[0] == vs[0]);
        assert(spec_encode_seq::<T>(vs) =~= T::spec_encode(vs[0]) + spec_encode_seq::<T>(
            vs.drop_first(),
        ));
    }
}

/// Decoding encoded values one after another gives them back.
pub proof fn lemma_decode_seq_encoded<T: BitCodec>(vs: Seq<T::V>, s: Seq<bool>, pos: int)
    requires
        forall|i: int| 0 <= i < vs.len() ==> T::spec_encodable(#[trigger] vs[i]),
        0 <= pos,
        pos + spec_encode_seq::<T>(vs).len() <= s.len(),
        s.subrange(pos, pos + spec_encode_seq::<T>(vs).len()) == spec_encode_seq::<T>(vs),
    ensures
        spec_decode_seq::<T>(s, pos, vs.len()) == Decoded::Value(
            vs,
            pos + spec_encode_seq::<T>(vs).len(),
        ),
    decreases vs.len(),
{
    if vs.len() == 0 {
        assert(vs =~= Seq::<T::V>::empty());
    } else {
        lemma_encode_seq_front::<T>(vs);
        let e0 = T::spec_encode(vs[0]);
        let rest = spec_encode_seq::<T>(vs.drop_first());
        let all = spec_encode_seq::<T>(vs);
        assert(s.subrange(pos, pos + e0.len()) =~= all.subrange(0, e0.len() as int));
        assert(all.subrange(0, e0.len() as int) =~= e0);
        T::lemma_decode_encode(vs[0], s, pos);
        assert(s.subrange(pos + e0.len(), pos + e0.len() + rest.len()) =~= all.subrange(
            e0.len() as int,
            all.len() as int,
        ));
        assert(all.subrange(e0.len() as int, all.len() as int) =~= rest);
        assert forall|i: int| 0 <= i < vs.drop_first().len() implies T::spec_encodable(
            #[trigger] vs.drop_first()[i],
        ) by {
            assert(vs.drop_first()[i] == vs[i + 1]);
        }
        lemma_decode_seq_encoded::<T>(vs.drop_first(), s, pos + e0.len());
        assert(seq![vs[0]] + vs.drop_first() =~= vs);
    }
}

/// Read `n` values one after another.
pub fn decode_seq<T: BitCodec>(r: &mut BitReader, n: usize) -> (res: Result<Vec<T>, DecodeError>)
    requires
        old(r).wf(),
    ensures
        decoded_by(
            *old(r),
            *final(r),
            res,
            spec_decode_seq::<T>(old(r).bits@, old(r).pos as int, n as nat),
            |v: Vec<T>| views(v),
        ),
{
    let ghost s = r.bits@;
    let ghost pos0 = r.pos as int;
    let mut items: Vec<T> = Vec::new();
    let mut i: usize = 0;
    assert(prepend_values(Seq::<T::V>::empty(), spec_decode_seq::<T>(s, pos0, n as nat))
        =~= spec_decode_seq::<T>(s, pos0, n as nat)) by {
        match spec_decode_seq::<T>(s, pos0, n as nat) {
            Decoded::Value(vs, q) => {
                assert(Seq::<T::V>::empty() + vs =~= vs);
            },
            _ => {},
        }
    }
    while i < n
        invariant
            r.wf(),
            r.bits@ == s,
            s == old(r).bits@,
            pos0 == old(r).pos,
            i <= n,
            prepend_values(views(items), spec_decode_seq::<T>(s, r.pos as int, (n - i) as nat))
                == spec_decode_seq::<T>(s, pos0, n as nat),
        decreases n - i,
    {
        let ghost pos = r.pos as int;
        let ghost prefix = views(items);
        match T::decode(r) {
            Ok(v) => {
                items.push(v);
                proof {
                    let p = r.pos as int;
                    assert(views(items) =~= prefix.push(v@));
                    match spec_decode_seq::<T>(s, p, (n - i - 1) as nat) {
                        Decoded::Value(vs, q) => {
                            assert(prefix.push(v@) + vs =~= prefix + (seq![v@] + vs));
                        },
                        _ => {},
                    }
                }
            },
            Err(e) => {
                return Err(e);
            },
        }
        i = i + 1;
    }
    proof {
        match spec_decode_seq::<T>(s, r.pos as int, 0) {
            Decoded::Value(vs, q) => {
                assert(views(items) + Seq::<T::V>::empty() =~= views(items));
            },
            _ => {},
        }
    }
    Ok(items)
}

/// Append the encodings of `items` one after another.
pub fn encode_seq<T: BitCodec>(items: &Vec<T>, w: &mut BitWriter)
    ensures
        final(w).bits@ == old(w).bits@ + spec_encode_seq::<T>(views(*items)),
{
    let ghost before = w.bits@;
    let ghost vs = views(*items);
    let mut i: usize = 0;
    assert(vs.take(0) =~= Seq::<T::V>::empty());
    assert(before + Seq::<bool>::empty() =~= before);
    while i < items.len()
        invariant
            i <= items.len(),
            vs == views(*items),
            w.bits@ == before + spec_encode_seq::<T>(vs.take(i as int)),
        decreases items.len() - i,
    {
        items[i].encode(w);
        proof {
            let t = vs.take(i as int + 1);
            assert(t.drop_last() =~= vs.take(i as int));
            assert(t.last() == items@[i as int]@);
            assert(before + spec_encode_seq::<T>(vs.take(i as int)) + T::spec_encode(items@[i as int]@)
                =~= before + spec_encode_seq::<T>(t));
        }
        i = i + 1;
    }
    assert(vs.take(items.len() as int) =~= vs);
}

impl<T: Copy> core::ops::Deref for BitAligned<T> {
    type Target = T;

    fn deref(&self) -> (r: &T)
        ensures
            *r == self.0,
    {
        &self.0
    }
}

impl<T: Copy> From<T> for BitAligned<T> {
    fn from(value: T) -> (r: BitAligned<T>) {
        BitAligned(value)
    }
}

impl<T: Copy> vstd::std_specs::convert::FromSpecImpl<T> for BitAligned<T> {
    open spec fn obeys_from_spec() -> bool {
        true
    }

    open spec fn from_spec(v: T) -> BitAligned<T> {
        BitAligned(v)
    }
}

impl<T: Copy> core::ops::Deref for Varint<T> {
    type Target = T;

    fn deref(&self) -> (r: &T)
        ensures
            *r == self.0,
    {
        &self.0
    }
}

impl<T: Copy> From<T> for Varint<T> {
    fn from(value: T) -> (r: Varint<T>) {
        Varint(value)
    }
}

impl<T: Copy> vstd::std_specs::convert::FromSpecImpl<T> for Varint<T> {
    open spec fn obeys_from_spec() -> bool {
        true
    }

    open spec fn from_spec(v: T) -> Varint<T> {
        Varint(v)
    }
}

impl core::ops::Deref for BitBool {
    type Target = bool;

    fn deref(&self) -> (r: &bool)
        ensures
            *r == self.0,
    {
        &self.0
    }
}

impl From<bool> for BitBool {
    fn from(value: bool) -> (r: BitBool) {
        BitBool(value)
    }
}

impl vstd::std_specs::convert::FromSpecImpl<bool> for BitBool {
    open spec fn obeys_from_spec() -> bool {
        true
    }

    open spec fn from_spec(v: bool) -> BitBool {
        BitBool(v)
    }
}

/// The encoding of a length prefix as the game writes it: a
/// variable-length integer holding the length cut to 32 bits.
pub open spec fn spec_len_prefix(n: nat) -> Seq<bool> {
    bits_of_bytes(spec_varint_bytes((n as u32) as nat))
}

/// A length-prefixed run of bytes.
#[derive(Clone, Debug, PartialEq, Default)]
pub struct VarBytes(pub Vec<u8>);

impl View for VarBytes {
    type V = Seq<u8>;

    open spec fn view(&self) -> Seq<u8> {
        self.0@
    }
}

impl VarBytes {
    pub fn new(data: Vec<u8>) -> (r: Self)
        ensures
            r@ == data@,
    {
        VarBytes(data)
    }

    pub fn as_slice(&self) -> (r: &[u8])
        ensures
            r@ == self@,
    {
        self.0.as_slice()
    }
}

impl From<Vec<u8>> for VarBytes {
    fn from(value: Vec<u8>) -> (r: VarBytes) {
        VarBytes(value)
    }
}

impl vstd::std_specs::convert::FromSpecImpl<Vec<u8>> for VarBytes {
    open spec fn obeys_from_spec() -> bool {
        true
    }

    open spec fn from_spec(v: Vec<u8>) -> VarBytes {
        VarBytes(v)
    }
}

impl From<VarBytes> for Vec<u8> {
    fn from(value: VarBytes) -> (r: Vec<u8>) {
        value.0
    }
}

impl vstd::std_specs::convert::FromSpecImpl<VarBytes> for Vec<u8> {
    open spec fn obeys_from_spec() -> bool {
        true
    }

    open spec fn from_spec(v: VarBytes) -> Vec<u8> {
        v.0
    }
}

/// A length prefix and then that many bytes.
pub open spec fn spec_read_var_bytes(s: Seq<bool>, pos: int) -> Decoded<Seq<u8>> {
    match Varint::<u32>::spec_decode(s, pos) {
        Decoded::Value(n, p) => spec_read_bytes(s, p, n.0 as nat),
        Decoded::Failed(e) => Decoded::Failed(e),
        Decoded::OutOfDomain => Decoded::OutOfDomain,
    }
}

/// The length prefix of `n` items read back where it was written.
proof fn lemma_len_prefix_read(n: nat, s: Seq<bool>, pos: int)
    requires
        n <= u32::MAX,
        0 <= pos,
        pos + spec_len_prefix(n).len() <= s.len(),
        s.subrange(pos, pos + spec_len_prefix(n).len()) == spec_len_prefix(n),
    ensures
        Varint::<u32>::spec_decode(s, pos) == Decoded::Value(
            Varint(n as u32),
            pos + spec_len_prefix(n).len(),
        ),
{
    Varint::<u32>::lemma_decode_encode(Varint(n as u32), s, pos);
}

/// `a + b` placed at `pos` of `s` puts `a` at `pos` and `b` right after.
pub proof fn lemma_split_at(s: Seq<bool>, pos: int, a: Seq<bool>, b: Seq<bool>)
    requires
        0 <= pos,
        pos + a.len() + b.len() <= s.len(),
        s.subrange(pos, pos + a.len() + b.len()) == a + b,
    ensures
        s.subrange(pos, pos + a.len()) == a,
        s.subrange(pos + a.len(), pos + a.len() + b.len()) == b,
{
    assert(s.subrange(pos, pos + a.len()) =~= (a + b).subrange(0, a.len() as int));
    assert((a + b).subrange(0, a.len() as int) =~= a);
    assert(s.subrange(pos + a.len(), pos + a.len() + b.len()) =~= (a + b).subrange(
        a.len() as int,
        (a.len() + b.len()) as int,
    ));
    assert((a + b).subrange(a.len() as int, (a.len() + b.len()) as int) =~= b);
}

impl BitCodec for VarBytes {
    open spec fn spec_decode(s: Seq<bool>, pos: int) -> Decoded<Seq<u8>> {
        spec_read_var_bytes(s, pos)
    }

    open spec fn spec_encode(v: Seq<u8>) -> Seq<bool> {
        spec_len_prefix(v.len()) + bits_of_bytes(v)
    }

    open spec fn spec_encodable(v: Seq<u8>) -> bool {
        v.len() <= u32::MAX
    }

    proof fn lemma_decode_encode(v: Seq<u8>, s: Seq<bool>, pos: int) {
        let a = spec_len_prefix(v.len());
        let b = bits_of_bytes(v);
        lemma_bits_of_bytes_len(v);
        lemma_split_at(s, pos, a, b);
        lemma_len_prefix_read(v.len(), s, pos);
        lemma_bytes_at_written(s, pos + a.len(), v);
    }

    fn decode(r: &mut BitReader) -> (res: Result<VarBytes, DecodeError>) {
        let n = match Varint::<u32>::decode(r) {
            Ok(n) => n,
            Err(e) => {
                return Err(e);
            },
        };
        match read_bytes(r, n.0 as usize) {
            Ok(bytes) => Ok(VarBytes(bytes)),
            Err(e) => Err(e),
        }
    }

    fn encode(&self, w: &mut BitWriter) {
        let len = self.0.len() as u32;
        Varint(len).encode(w);
        w.write_bytes(self.0.as_slice());
        assert(old(w).bits@ + spec_len_prefix(self@.len()) + bits_of_bytes(self@) =~= old(w).bits@
            + (spec_len_prefix(self@.len()) + bits_of_bytes(self@)));
    }
}

/// Turn bytes that are valid UTF-8 into a `String`
/// (`std::string::String::from_utf8`).
///
/// Trusted: the string holds exactly the given bytes, and the conversion
/// succeeds just when they are valid UTF-8, as the standard library
/// documents.
#[verifier::external_body]
fn string_from_utf8(bytes: Vec<u8>) -> (r: Option<String>)
    ensures
        r is Some <==> valid_utf8(bytes@),
        r matches Some(t) ==> encode_utf8(t@) == bytes@,
{
    String::from_utf8(bytes).ok()
}

/// A length-prefixed UTF-8 string.
#[derive(Clone, Debug, PartialEq, Eq, Hash, Default)]
pub struct VarString(pub String);

impl View for VarString {
    type V = Seq<char>;

    open spec fn view(&self) -> Seq<char> {
        self.0@
    }
}

impl VarString {
    pub fn new(s: String) -> (r: Self)
        ensures
            r@ == s@,
    {
        VarString(s)
    }

    pub fn as_str(&self) -> (r: &str)
        ensures
            r@ == self@,
    {
        self.0.as_str()
    }

    pub fn into_string(self) -> (r: String)
        ensures
            r@ == self@,
    {
        self.0
    }
}

impl From<String> for VarString {
    fn from(value: String) -> (r: VarString) {
        VarString(value)
    }
}

impl vstd::std_specs::convert::FromSpecImpl<String> for VarString {
    open spec fn obeys_from_spec() -> bool {
        true
    }

    open spec fn from_spec(v: String) -> VarString {
        VarString(v)
    }
}

impl From<VarString> for String {
    fn from(value: VarString) -> (r: String) {
        value.0
    }
}

impl vstd::std_specs::convert::FromSpecImpl<VarString> for String {
    open spec fn obeys_from_spec() -> bool {
        true
    }

    open spec fn from_spec(v: VarString) -> String {
        v.0
    }
}

impl<'a> From<&'a str> for VarString {
    fn from(value: &'a str) -> (r: VarString)
        ensures
            r@ == value@,
    {
        VarString(value.to_owned())
    }
}

impl<'a> vstd::std_specs::convert::FromSpecImpl<&'a str> for VarString {
    open spec fn obeys_from_spec() -> bool {
        false
    }

    closed spec fn from_spec(v: &'a str) -> VarString {
        vstd::pervasive::arbitrary()
    }
}

impl BitCodec for VarString {
    open spec fn spec_decode(s: Seq<bool>, pos: int) -> Decoded<Seq<char>> {
        match spec_read_var_bytes(s, pos) {
            Decoded::Value(bs, q) => if valid_utf8(bs) {
                Decoded::Value(decode_utf8(bs), q)
            } else {
                Decoded::Failed(DecodeError::InvalidUtf8)
            },
            Decoded::Failed(e) => Decoded::Failed(e),
            Decoded::OutOfDomain => Decoded::OutOfDomain,
        }
    }

    /// The byte length is written as a 64-bit variable-length integer.
    open spec fn spec_encode(v: Seq<char>) -> Seq<bool> {
        bits_of_bytes(spec_varint_bytes(encode_utf8(v).len())) + bits_of_bytes(encode_utf8(v))
    }

    open spec fn spec_encodable(v: Seq<char>) -> bool {
        encode_utf8(v).len() <= u32::MAX
    }

    proof fn lemma_decode_encode(v: Seq<char>, s: Seq<bool>, pos: int) {
        let bs = encode_utf8(v);
        assert(spec_len_prefix(bs.len()) == bits_of_bytes(spec_varint_bytes(bs.len())));
        VarBytes::lemma_decode_encode(bs, s, pos);
        vstd::utf8::encode_utf8_valid_utf8(v);
        vstd::utf8::encode_utf8_decode_utf8(v);
    }

    fn decode(r: &mut BitReader) -> (res: Result<VarString, DecodeError>) {
        let bytes = match VarBytes::decode(r) {
            Ok(b) => b,
            Err(e) => {
                return Err(e);
            },
        };
        match string_from_utf8(bytes.0) {
            Some(t) => {
                proof {
                    vstd::utf8::encode_utf8_decode_utf8(t@);
                }
                Ok(VarString(t))
            },
            None => Err(DecodeError::InvalidUtf8),
        }
    }

    fn encode(&self, w: &mut BitWriter) {
        let bytes = self.0.as_str().as_bytes();
        write_varint(w, bytes.len() as u64);
        w.write_bytes(bytes);
        assert(old(w).bits@ + bits_of_bytes(spec_varint_bytes(encode_utf8(self@).len()))
            + bits_of_bytes(encode_utf8(self@)) =~= old(w).bits@ + VarString::spec_encode(self@));
    }
}

/// A length-prefixed sequence of values.
#[derive(Clone, Debug, PartialEq, Default)]
pub struct VarVec<T>(pub Vec<T>);

impl<T: View> View for VarVec<T> {
    type V = Seq<T::V>;

    open spec fn view(&self) -> Seq<T::V> {
        views(self.0)
    }
}

impl<T> VarVec<T> {
    pub fn new(items: Vec<T>) -> (r: Self)
        ensures
            r.0@ == items@,
    {
        VarVec(items)
    }

    pub fn as_slice(&self) -> (r: &[T])
        ensures
            r@ == self.0@,
    {
        self.0.as_slice()
    }

    pub fn into_inner(self) -> (r: Vec<T>)
        ensures
            r@ == self.0@,
    {
        self.0
    }

    pub fn len(&self) -> (n: usize)
        ensures
            n == self.0@.len(),
    {
        self.0.len()
    }

    pub fn is_empty(&self) -> (b: bool)
        ensures
            b == (self.0@.len() == 0),
    {
        self.0.len() == 0
    }
}

impl<T> From<Vec<T>> for VarVec<T> {
    fn from(value: Vec<T>) -> (r: VarVec<T>) {
        VarVec(value)
    }
}

impl<T> vstd::std_specs::convert::FromSpecImpl<Vec<T>> for VarVec<T> {
    open spec fn obeys_from_spec() -> bool {
        true
    }

    open spec fn from_spec(v: Vec<T>) -> VarVec<T> {
        VarVec(v)
    }
}

impl<T> From<VarVec<T>> for Vec<T> {
    fn from(value: VarVec<T>) -> (r: Vec<T>) {
        value.0
    }
}

impl<T> vstd::std_specs::convert::FromSpecImpl<VarVec<T>> for Vec<T> {
    open spec fn obeys_from_spec() -> bool {
        true
    }

    open spec fn from_spec(v: VarVec<T>) -> Vec<T> {
        v.0
    }
}

impl<T: BitCodec> BitCodec for VarVec<T> {
    open spec fn spec_decode(s: Seq<bool>, pos: int) -> Decoded<Seq<T::V>> {
        match Varint::<u32>::spec_decode(s, pos) {
            Decoded::Value(n, p) => spec_decode_seq::<T>(s, p, n.0 as nat),
            Decoded::Failed(e) => Decoded::Failed(e),
            Decoded::OutOfDomain => Decoded::OutOfDomain,
        }
    }

    open spec fn spec_encode(v: Seq<T::V>) -> Seq<bool> {
        spec_len_prefix(v.len()) + spec_encode_seq::<T>(v)
    }

    open spec fn spec_encodable(v: Seq<T::V>) -> bool {
        &&& v.len() <= u32::MAX
        &&& forall|i: int| 0 <= i < v.len() ==> T::spec_encodable(#[trigger] v[i])
    }

    proof fn lemma_decode_encode(v: Seq<T::V>, s: Seq<bool>, pos: int) {
        let a = spec_len_prefix(v.len());
        let b = spec_encode_seq::<T>(v);
        lemma_split_at(s, pos, a, b);
        lemma_len_prefix_read(v.len(), s, pos);
        lemma_decode_seq_encoded::<T>(v, s, pos + a.len());
    }

    fn decode(r: &mut BitReader) -> (res: Result<VarVec<T>, DecodeError>) {
        let n = match Varint::<u32>::decode(r) {
            Ok(n) => n,
            Err(e) => {
                return Err(e);
            },
        };
        match decode_seq::<T>(r, n.0 as usize) {
            Ok(items) => Ok(VarVec(items)),
            Err(e) => Err(e),
        }
    }

    fn encode(&self, w: &mut BitWriter) {
        let len = self.0.len() as u32;
        Varint(len).encode(w);
        encode_seq(&self.0, w);
        assert(old(w).bits@ + spec_len_prefix(self@.len()) + spec_encode_seq::<T>(self@) =~= old(
            w,
        ).bits@ + (spec_len_prefix(self@.len()) + spec_encode_seq::<T>(self@)));
    }
}

impl<T: Copy> PlainView for BitAligned<T> {
    proof fn lemma_view_is_self(x: BitAligned<T>) {
    }
}

impl<T: Copy> PlainView for Varint<T> {
    proof fn lemma_view_is_self(x: Varint<T>) {
    }
}

impl PlainView for BitBool {
    proof fn lemma_view_is_self(x: BitBool) {
    }
}


/// The number that groups of seven bits make, the first byte's group
/// least significant: each byte adds its low seven bits times 128 to the
/// power of its position.
pub open spec fn seven_bit_value(bs: Seq<u8>) -> nat
    decreases bs.len(),
{
    if bs.len() == 0 {
        0
    } else {
        (bs[0] % 128) as nat + 128 * seven_bit_value(bs.drop_first())
    }
}

/// A variable-length integer is written seven bits to a byte, least
/// significant group first: every byte but the last has its high bit set,
/// the last has it clear, and the groups, weighted by 128 to the power of
/// their position, add up to the number. A `Varint` of a 32- or 64-bit
/// number is written as those bytes.
pub proof fn lemma_varint_layout(v: nat, a: u32, b: u64)
    ensures
        spec_varint_bytes(v).len() >= 1,
        spec_varint_bytes(v).last() < 128,
        forall|i: int| 0 <= i < spec_varint_bytes(v).len() - 1 ==> #[trigger] spec_varint_bytes(v)[i] >= 128,
        seven_bit_value(spec_varint_bytes(v)) == v,
        Varint::<u32>::spec_encode(Varint(a)) == bits_of_bytes(spec_varint_bytes(a as nat)),
        Varint::<u64>::spec_encode(Varint(b)) == bits_of_bytes(spec_varint_bytes(b as nat)),
    decreases v,
{
    let bs = spec_varint_bytes(v);
    if v < 128 {
        assert(bs.drop_first() =~= Seq::<u8>::empty());
        assert(seven_bit_value(bs.drop_first()) == 0);
    } else {
        lemma_varint_layout(v / 128, a, b);
        let rest = spec_varint_bytes(v / 128);
        assert(bs.drop_first() =~= rest);
        assert(bs.last() == rest.last());
        assert forall|i: int| 0 <= i < bs.len() - 1 implies #[trigger] bs[i] >= 128 by {
            if i > 0 {
                assert(bs[i] == rest[i - 1]);
            }
        }
        assert(((v % 128 + 128) as u8) as nat % 128 == v % 128);
        assert(v % 128 + 128 * (v / 128) == v);
    }
}

} // verus!
