//! The bit-stream model of the Space Engineers wire format.
//!
//! The game writes every value least significant bit first, and packs the
//! stream into bytes least significant bit first as well: stream bit `k`
//! is bit `k % 8` of byte `k / 8`. A value of `n` bits written at stream
//! position `p` therefore has its bit `i` at stream position `p + i`, and
//! a little-endian integer written at any position (aligned or not) is the
//! plain `8 * size`-bit little-endian value.
//!
//! Streams are modelled as `Seq<bool>`; readers and writers keep the bits
//! in a `Vec<bool>`.
use vstd::prelude::*;

verus! {

/// `2^n` as a natural number.
pub open spec fn two_pow(n: nat) -> nat
    decreases n,
{
    if n == 0 {
        1
    } else {
        2 * two_pow((n - 1) as nat)
    }
}

/// Value of a bit string read least significant bit first.
pub open spec fn uint_of_bits(s: Seq<bool>) -> nat
    decreases s.len(),
{
    if s.len() == 0 {
        0
    } else {
        (if s[0] {
            1nat
        } else {
            0nat
        }) + 2 * uint_of_bits(s.drop_first())
    }
}

/// The `n` low bits of `v`, least significant bit first.
pub open spec fn bits_of_uint(v: nat, n: nat) -> Seq<bool>
    decreases n,
{
    if n == 0 {
        Seq::empty()
    } else {
        seq![v % 2 == 1] + bits_of_uint(v / 2, (n - 1) as nat)
    }
}

/// The bits of a byte string: each byte contributes its 8 bits, least
/// significant first.
pub open spec fn bits_of_bytes(bs: Seq<u8>) -> Seq<bool>
    decreases bs.len(),
{
    if bs.len() == 0 {
        Seq::empty()
    } else {
        bits_of_bytes(bs.drop_last()) + bits_of_uint(bs.last() as nat, 8)
    }
}

/// Number of bytes needed to hold `n` bits.
pub open spec fn byte_len(n: nat) -> nat {
    (n + 7) / 8
}

/// The bytes of a bit string: byte `j` holds bits `8j .. 8j+8`; missing
/// bits of the last byte are zero.
pub open spec fn bytes_of_bits(s: Seq<bool>) -> Seq<u8> {
    Seq::new(
        byte_len(s.len()),
        |j: int|
            uint_of_bits(
                s.subrange(
                    8 * j,
                    if 8 * j + 8 <= s.len() {
                        8 * j + 8
                    } else {
                        s.len() as int
                    },
                ),
            ) as u8,
    )
}

/// `n` zero bits.
pub open spec fn zero_bits(n: nat) -> Seq<bool> {
    Seq::new(n, |i: int| false)
}

/// Value of the `n` bits at position `pos` of `s`.
pub open spec fn uint_at(s: Seq<bool>, pos: int, n: nat) -> nat {
    uint_of_bits(s.subrange(pos, pos + n))
}

pub proof fn lemma_two_pow_facts(n: nat)
    ensures
        two_pow(n) >= 1,
        two_pow(n + 1) == 2 * two_pow(n),
    decreases n,
{
    if n > 0 {
        lemma_two_pow_facts((n - 1) as nat);
    }
}

pub proof fn lemma_two_pow_add(a: nat, b: nat)
    ensures
        two_pow(a + b) == two_pow(a) * two_pow(b),
    decreases a,
{
    if a > 0 {
        lemma_two_pow_add((a - 1) as nat, b);
        lemma_two_pow_facts((a - 1) as nat);
        lemma_two_pow_facts((a - 1 + b) as nat);
        let x = two_pow((a - 1) as nat);
        let y = two_pow(b);
        assert(((a - 1) as nat + b) as nat + 1 == a + b);
        assert(two_pow(a + b) == 2 * two_pow(((a - 1) as nat + b) as nat));
        assert(two_pow(a) == 2 * x);
        assert((2 * x) * y == 2 * (x * y)) by (nonlinear_arith);
    } else {
        assert(two_pow(a) == 1);
        assert(a + b == b);
    }
}

pub proof fn lemma_two_pow_monotone(a: nat, b: nat)
    requires
        a <= b,
    ensures
        two_pow(a) <= two_pow(b),
    decreases b,
{
    if a < b {
        lemma_two_pow_monotone(a, (b - 1) as nat);
        lemma_two_pow_facts((b - 1) as nat);
    }
}

pub proof fn lemma_two_pow_values()
    ensures
        two_pow(1) == 2,
        two_pow(2) == 4,
        two_pow(4) == 16,
        two_pow(5) == 32,
        two_pow(7) == 128,
        two_pow(8) == 256,
        two_pow(15) == 0x8000,
        two_pow(16) == 0x10000,
        two_pow(28) == 0x1000_0000,
        two_pow(32) == 0x1_0000_0000,
        two_pow(64) == 0x1_0000_0000_0000_0000,
{
    reveal_with_fuel(two_pow, 9);
    assert(two_pow(8) == 256);
    assert(two_pow(7) == 128);
    lemma_two_pow_add(8, 7);
    lemma_two_pow_add(8, 8);
    assert(two_pow(16) == 0x10000);
    lemma_two_pow_add(16, 8);
    lemma_two_pow_add(24, 4);
    lemma_two_pow_add(16, 16);
    assert(two_pow(32) == 0x10000 * 0x10000);
    assert(two_pow(32) == 0x1_0000_0000);
    lemma_two_pow_add(32, 32);
    assert(two_pow(64) == 0x1_0000_0000 * 0x1_0000_0000);
}

pub proof fn lemma_bits_of_uint_len(v: nat, n: nat)
    ensures
        bits_of_uint(v, n).len() == n,
    decreases n,
{
    if n > 0 {
        lemma_bits_of_uint_len(v / 2, (n - 1) as nat);
    }
}

/// A bit string of length `n` has a value below `2^n`.
pub proof fn lemma_uint_of_bits_bound(s: Seq<bool>)
    ensures
        uint_of_bits(s) < two_pow(s.len()),
    decreases s.len(),
{
    if s.len() > 0 {
        lemma_uint_of_bits_bound(s.drop_first());
        lemma_two_pow_facts((s.len() - 1) as nat);
    }
}

/// Reading back the `n` low bits of `v` gives `v` when it fits.
pub proof fn lemma_uint_roundtrip(v: nat, n: nat)
    requires
        v < two_pow(n),
    ensures
        uint_of_bits(bits_of_uint(v, n)) == v,
    decreases n,
{
    if n > 0 {
        lemma_two_pow_facts((n - 1) as nat);
        lemma_uint_roundtrip(v / 2, (n - 1) as nat);
        let s = bits_of_uint(v, n);
        assert(s.drop_first() =~= bits_of_uint(v / 2, (n - 1) as nat));
    }
}

/// Writing the value of a bit string gives the bit string back.
pub proof fn lemma_bits_roundtrip(s: Seq<bool>)
    ensures
        bits_of_uint(uint_of_bits(s), s.len()) == s,
    decreases s.len(),
{
    if s.len() > 0 {
        lemma_bits_roundtrip(s.drop_first());
        let v = uint_of_bits(s);
        let r = uint_of_bits(s.drop_first());
        assert(v / 2 == r);
        assert(bits_of_uint(v, s.len()) =~= seq![s[0]] + s.drop_first());
        assert(seq![s[0]] + s.drop_first() =~= s);
    }
}

/// The value of a concatenation.
pub proof fn lemma_uint_of_bits_append(a: Seq<bool>, b: Seq<bool>)
    ensures
        uint_of_bits(a + b) == uint_of_bits(a) + two_pow(a.len()) * uint_of_bits(b),
    decreases a.len(),
{
    if a.len() > 0 {
        lemma_uint_of_bits_append(a.drop_first(), b);
        assert((a + b).drop_first() =~= a.drop_first() + b);
        lemma_two_pow_facts((a.len() - 1) as nat);
        let x = two_pow((a.len() - 1) as nat);
        let y = uint_of_bits(b);
        let u = uint_of_bits(a.drop_first());
        assert((a + b)[0] == a[0]);
        assert(2 * (u + x * y) == 2 * u + (2 * x) * y) by (nonlinear_arith);
        assert(two_pow(a.len()) == 2 * x);
        assert(uint_of_bits(a + b) == (if a[0] { 1nat } else { 0nat }) + 2 * uint_of_bits((a + b).drop_first()));
        assert(uint_of_bits(a) == (if a[0] { 1nat } else { 0nat }) + 2 * u);
        assert(two_pow(a.len()) * y == (2 * x) * y);
        assert(uint_of_bits((a + b).drop_first()) == u + x * y);
    } else {
        assert(a + b =~= b);
        assert(uint_of_bits(a) == 0);
        assert(two_pow(a.len()) == 1);
        assert(1 * uint_of_bits(b) == uint_of_bits(b));
    }
}

/// Zero bits have value zero.
pub proof fn lemma_uint_of_zero_bits(n: nat)
    ensures
        uint_of_bits(zero_bits(n)) == 0,
    decreases n,
{
    if n > 0 {
        assert(zero_bits(n).drop_first() =~= zero_bits((n - 1) as nat));
        lemma_uint_of_zero_bits((n - 1) as nat);
    }
}

pub proof fn lemma_bits_of_bytes_len(bs: Seq<u8>)
    ensures
        bits_of_bytes(bs).len() == 8 * bs.len(),
    decreases bs.len(),
{
    if bs.len() > 0 {
        lemma_bits_of_bytes_len(bs.drop_last());
        lemma_bits_of_uint_len(bs.last() as nat, 8);
    }
}

/// Bits `8j .. 8j+8` of a byte string are the bits of byte `j`.
pub proof fn lemma_bits_of_bytes_chunk(bs: Seq<u8>, j: int)
    requires
        0 <= j < bs.len(),
    ensures
        bits_of_bytes(bs).len() == 8 * bs.len(),
        bits_of_bytes(bs).subrange(8 * j, 8 * j + 8) == bits_of_uint(bs[j] as nat, 8),
    decreases bs.len(),
{
    lemma_bits_of_bytes_len(bs);
    lemma_bits_of_bytes_len(bs.drop_last());
    lemma_bits_of_uint_len(bs.last() as nat, 8);
    let all = bits_of_bytes(bs);
    let front = bits_of_bytes(bs.drop_last());
    if j == bs.len() - 1 {
        assert(all.subrange(8 * j, 8 * j + 8) =~= bits_of_uint(bs[j] as nat, 8));
    } else {
        lemma_bits_of_bytes_chunk(bs.drop_last(), j);
        assert(all.subrange(8 * j, 8 * j + 8) =~= front.subrange(8 * j, 8 * j + 8));
    }
}

/// The bits of a concatenation of byte strings.
pub proof fn lemma_bits_of_bytes_append(a: Seq<u8>, b: Seq<u8>)
    ensures
        bits_of_bytes(a + b) == bits_of_bytes(a) + bits_of_bytes(b),
    decreases b.len(),
{
    if b.len() == 0 {
        assert(a + b =~= a);
        assert(bits_of_bytes(a) + bits_of_bytes(b) =~= bits_of_bytes(a));
    } else {
        lemma_bits_of_bytes_append(a, b.drop_last());
        assert((a + b).drop_last() =~= a + b.drop_last());
        assert((a + b).last() == b.last());
        assert(bits_of_bytes(a + b) =~= bits_of_bytes(a) + bits_of_bytes(b));
    }
}

/// Turning bytes into bits and back gives the bytes.
pub proof fn lemma_bytes_bits_roundtrip(bs: Seq<u8>)
    ensures
        bytes_of_bits(bits_of_bytes(bs)) == bs,
{
    let s = bits_of_bytes(bs);
    lemma_bits_of_bytes_len(bs);
    assert forall|j: int| 0 <= j < bs.len() implies bytes_of_bits(s)[j] == bs[j] by {
        lemma_bits_of_bytes_chunk(bs, j);
        lemma_two_pow_values();
        lemma_uint_roundtrip(bs[j] as nat, 8);
    }
    assert(bytes_of_bits(s) =~= bs);
}

/// The bits of a single byte.
pub proof fn lemma_bits_of_one_byte(b: u8)
    ensures
        bits_of_bytes(seq![b]) == bits_of_uint(b as nat, 8),
{
    let s = seq![b];
    assert(s.drop_last() =~= Seq::<u8>::empty());
    assert(s.last() == b);
    assert(bits_of_bytes(s.drop_last()) =~= Seq::<bool>::empty());
    assert(bits_of_bytes(s) =~= bits_of_uint(b as nat, 8));
}

/// Padding that fills the last byte of a stream of `n` bits.
pub open spec fn pad_len(n: nat) -> nat {
    (8 * byte_len(n) - n) as nat
}

/// The bits of the value of a bit string, extended to `n` bits, are the
/// string followed by zeros.
pub proof fn lemma_bits_of_uint_padded(c: Seq<bool>, n: nat)
    requires
        c.len() <= n,
    ensures
        bits_of_uint(uint_of_bits(c), n) == c + zero_bits((n - c.len()) as nat),
    decreases n,
{
    if n == 0 {
        assert(c =~= Seq::<bool>::empty());
        assert(c + zero_bits(0) =~= c);
    } else if c.len() == 0 {
        lemma_bits_of_uint_padded(c, (n - 1) as nat);
        assert(uint_of_bits(c) == 0);
        assert(bits_of_uint(0, n) =~= seq![false] + bits_of_uint(0, (n - 1) as nat));
        assert(c + zero_bits(n) =~= seq![false] + (c + zero_bits((n - 1) as nat)));
    } else {
        let v = uint_of_bits(c);
        lemma_bits_of_uint_padded(c.drop_first(), (n - 1) as nat);
        assert(v / 2 == uint_of_bits(c.drop_first()));
        assert((v % 2 == 1) == c[0]);
        assert(c + zero_bits((n - c.len()) as nat) =~= seq![c[0]] + (c.drop_first() + zero_bits(
            ((n - 1) - c.drop_first().len()) as nat,
        )));
    }
}

/// Packing bits into bytes and unpacking them again adds the zero padding
/// of the last byte.
pub proof fn lemma_bits_bytes_padded(e: Seq<bool>)
    ensures
        bits_of_bytes(bytes_of_bits(e)) == e + zero_bits(pad_len(e.len())),
        pad_len(e.len()) < 8,
        e.len() + pad_len(e.len()) == 8 * bytes_of_bits(e).len(),
{
    let bs = bytes_of_bits(e);
    let out = bits_of_bytes(bs);
    let want = e + zero_bits(pad_len(e.len()));
    lemma_bits_of_bytes_len(bs);
    assert(out.len() == want.len());
    assert forall|k: int| 0 <= k < out.len() implies out[k] == want[k] by {
        let j = k / 8;
        let i = k % 8;
        lemma_bits_of_bytes_chunk(bs, j);
        assert(out[k] == out.subrange(8 * j, 8 * j + 8)[i]);
        let end = if 8 * j + 8 <= e.len() {
            8 * j + 8
        } else {
            e.len() as int
        };
        let c = e.subrange(8 * j, end);
        lemma_uint_of_bits_bound(c);
        lemma_two_pow_monotone(c.len(), 8);
        lemma_two_pow_values();
        lemma_bits_of_uint_padded(c, 8);
        assert(bs[j] as nat == uint_of_bits(c));
        if k < e.len() {
            assert(want[k] == e[k]);
            assert((c + zero_bits((8 - c.len()) as nat))[i] == c[i]);
        } else {
            assert(want[k] == false);
        }
    }
    assert(out =~= want);
}

/// Why a stream could not be decoded.
#[derive(Clone, Copy, Debug, PartialEq, Eq, Structural)]
pub enum DecodeError {
    /// The stream ended before the value was complete.
    Incomplete,
    /// A variable-length integer ran on for more than ten bytes.
    VarintTooLong,
    /// A string's bytes are not valid UTF-8.
    InvalidUtf8,
    /// A field held a value other than the one the format fixes.
    Assertion,
    /// An identifier names no variant of the format.
    UnknownId,
    /// An RPC body is shorter than its terminator.
    RpcTooShort,
    /// No RPC terminator ends the stream.
    RpcTerminatorMissing,
    /// A decoded number does not fit the type that holds it.
    OutOfRange,
}

/// What decoding a value from a stream at some position gives: the value
/// and the position after it, an error, or `OutOfDomain` when the stream
/// lies outside the domain of the format: a decoded number that the
/// target type cannot hold. Decoders report the last kind as
/// `DecodeError::OutOfRange`; the public entry points exclude it.
pub enum Decoded<T> {
    Value(T, int),
    Failed(DecodeError),
    OutOfDomain,
}

impl<T> Decoded<T> {
    /// Continue decoding after a value with `f`, given the value and the
    /// position after it.
    pub open spec fn and_then<U>(self, f: spec_fn(T, int) -> Decoded<U>) -> Decoded<U> {
        match self {
            Decoded::Value(v, p) => f(v, p),
            Decoded::Failed(e) => Decoded::Failed(e),
            Decoded::OutOfDomain => Decoded::OutOfDomain,
        }
    }

    /// The decoded value transformed by `f`.
    pub open spec fn map<U>(self, f: spec_fn(T) -> U) -> Decoded<U> {
        match self {
            Decoded::Value(v, p) => Decoded::Value(f(v), p),
            Decoded::Failed(e) => Decoded::Failed(e),
            Decoded::OutOfDomain => Decoded::OutOfDomain,
        }
    }
}

/// The `n`-bit unsigned value at `pos`.
pub open spec fn spec_read_uint(s: Seq<bool>, pos: int, n: nat) -> Decoded<u64> {
    if pos + n <= s.len() {
        Decoded::Value(uint_at(s, pos, n) as u64, pos + n)
    } else {
        Decoded::Failed(DecodeError::Incomplete)
    }
}

/// The single bit at `pos`.
pub open spec fn spec_read_bit(s: Seq<bool>, pos: int) -> Decoded<bool> {
    if pos + 1 <= s.len() {
        Decoded::Value(s[pos], pos + 1)
    } else {
        Decoded::Failed(DecodeError::Incomplete)
    }
}

/// A stream being read, with its read position.
pub struct BitReader {
    pub bits: Vec<bool>,
    pub pos: usize,
}

/// `after` is `before` advanced as `d` says, and `r` is what `d` says.
pub open spec fn read_as<T>(
    before: BitReader,
    after: BitReader,
    r: Result<T, DecodeError>,
    d: Decoded<T>,
) -> bool {
    &&& after.bits@ == before.bits@
    &&& after.pos <= after.bits@.len()
    &&& match d {
        Decoded::Value(v, end) => r == Ok::<T, DecodeError>(v) && after.pos == end,
        Decoded::Failed(e) => r == Err::<T, DecodeError>(e) && e != DecodeError::OutOfRange,
        Decoded::OutOfDomain => true,
    }
}

impl BitReader {
    pub open spec fn wf(&self) -> bool {
        self.pos <= self.bits@.len()
    }

    /// A reader at the start of the bits of `bytes`.
    pub fn from_bytes(bytes: &[u8]) -> (r: BitReader)
        ensures
            r.bits@ == bits_of_bytes(bytes@),
            r.pos == 0,
    {
        BitReader { bits: bytes_to_bits(bytes), pos: 0 }
    }

    /// Number of bits left to read.
    pub fn remaining(&self) -> (n: usize)
        requires
            self.wf(),
        ensures
            n == self.bits@.len() - self.pos,
    {
        self.bits.len() - self.pos
    }

    pub fn read_bit(&mut self) -> (r: Result<bool, DecodeError>)
        requires
            old(self).wf(),
        ensures
            read_as(*old(self), *final(self), r, spec_read_bit(old(self).bits@, old(self).pos as int)),
    {
        if self.pos < self.bits.len() {
            let b = self.bits[self.pos];
            self.pos = self.pos + 1;
            Ok(b)
        } else {
            Err(DecodeError::Incomplete)
        }
    }

    /// Read an `n`-bit unsigned value, least significant bit first.
    pub fn read_uint(&mut self, n: usize) -> (r: Result<u64, DecodeError>)
        requires
            old(self).wf(),
            n <= 64,
        ensures
            read_as(*old(self), *final(self), r, spec_read_uint(old(self).bits@, old(self).pos as int, n as nat)),
    {
        if n <= self.bits.len() - self.pos {
            let v = uint_of_bit_range(&self.bits, self.pos, n);
            self.pos = self.pos + n;
            Ok(v)
        } else {
            Err(DecodeError::Incomplete)
        }
    }
}

/// A bit stream under construction.
pub struct BitWriter {
    pub bits: Vec<bool>,
}

impl BitWriter {
    pub open spec fn view(&self) -> Seq<bool> {
        self.bits@
    }

    pub fn new() -> (w: BitWriter)
        ensures
            w.bits@ == Seq::<bool>::empty(),
    {
        BitWriter { bits: Vec::new() }
    }

    pub fn write_bit(&mut self, b: bool)
        ensures
            final(self).bits@ == old(self).bits@.push(b),
    {
        self.bits.push(b);
    }

    /// Append the `n` low bits of `v`, least significant first.
    pub fn write_uint(&mut self, v: u64, n: usize)
        ensures
            final(self).bits@ == old(self).bits@ + bits_of_uint(v as nat, n as nat),
        decreases n,
    {
        if n == 0 {
            assert(old(self).bits@ + bits_of_uint(v as nat, 0) =~= old(self).bits@);
        } else {
            let ghost before = self.bits@;
            self.bits.push(v % 2 == 1);
            self.write_uint(v / 2, n - 1);
            assert(before.push(v % 2 == 1) + bits_of_uint((v / 2) as nat, (n - 1) as nat)
                =~= before + bits_of_uint(v as nat, n as nat));
        }
    }

    /// Append the bits of each byte.
    pub fn write_bytes(&mut self, bytes: &[u8])
        ensures
            final(self).bits@ == old(self).bits@ + bits_of_bytes(bytes@),
    {
        let ghost before = self.bits@;
        let mut i: usize = 0;
        assert(bytes@.take(0) =~= Seq::<u8>::empty());
        assert(before + bits_of_bytes(Seq::<u8>::empty()) =~= before);
        while i < bytes.len()
            invariant
                i <= bytes.len(),
                self.bits@ == before + bits_of_bytes(bytes@.take(i as int)),
            decreases bytes.len() - i,
        {
            self.write_uint(bytes[i] as u64, 8);
            let ghost t = bytes@.take(i as int + 1);
            assert(t.drop_last() =~= bytes@.take(i as int));
            assert(t.last() == bytes[i as int]);
            i = i + 1;
        }
        assert(bytes@.take(bytes.len() as int) =~= bytes@);
    }

    pub fn write_bit_seq(&mut self, bits: &Vec<bool>)
        ensures
            final(self).bits@ == old(self).bits@ + bits@,
    {
        let ghost before = self.bits@;
        let mut i: usize = 0;
        while i < bits.len()
            invariant
                i <= bits.len(),
                self.bits@ == before + bits@.take(i as int),
            decreases bits.len() - i,
        {
            self.bits.push(bits[i]);
            assert(bits@.take(i as int + 1) =~= bits@.take(i as int).push(bits@[i as int]));
            i = i + 1;
        }
        assert(bits@.take(bits.len() as int) =~= bits@);
    }

    /// The stream packed into bytes; the last byte is padded with zero bits.
    pub fn to_bytes(&self) -> (out: Vec<u8>)
        ensures
            out@ == bytes_of_bits(self.bits@),
    {
        bits_to_bytes(&self.bits)
    }
}

/// The value of the `n` bits of `bits` from `start`.
pub fn uint_of_bit_range(bits: &Vec<bool>, start: usize, n: usize) -> (v: u64)
    requires
        n <= 64,
        start + n <= bits.len(),
    ensures
        v as nat == uint_of_bits(bits@.subrange(start as int, start + n)),
    decreases n,
{
    if n == 0 {
        0
    } else {
        let rest = uint_of_bit_range(bits, start + 1, n - 1);
        let ghost s = bits@.subrange(start as int, start + n);
        assert(s.drop_first() =~= bits@.subrange(start + 1, start + n));
        proof {
            lemma_uint_of_bits_bound(s);
            lemma_two_pow_monotone(n as nat, 64);
            lemma_two_pow_values();
        }
        let low: u64 = if bits[start] {
            1
        } else {
            0
        };
        low + 2 * rest
    }
}

/// Pack bits into bytes, least significant bit first; the last byte is
/// padded with zero bits.
pub fn bits_to_bytes(bits: &Vec<bool>) -> (out: Vec<u8>)
    ensures
        out@ == bytes_of_bits(bits@),
{
    let mut out: Vec<u8> = Vec::new();
    let n = bits.len();
    let count = n / 8 + if n % 8 == 0 {
        0
    } else {
        1
    };
    assert(count == byte_len(n as nat));
    let mut j: usize = 0;
    while j < count
        invariant
            n == bits.len(),
            count == byte_len(n as nat),
            j <= count,
            out@ =~= bytes_of_bits(bits@).take(j as int),
        decreases count - j,
    {
        let start = 8 * j;
        assert(start < n);
        let len = if n - start >= 8 {
            8
        } else {
            n - start
        };
        let v = uint_of_bit_range(bits, start, len);
        proof {
            lemma_uint_of_bits_bound(bits@.subrange(start as int, start + len));
            lemma_two_pow_monotone(len as nat, 8);
            lemma_two_pow_values();
        }
        out.push(v as u8);
        assert(out@ =~= bytes_of_bits(bits@).take(j as int + 1));
        j = j + 1;
    }
    out
}

/// Unpack bytes into bits, least significant bit first.
pub fn bytes_to_bits(bytes: &[u8]) -> (bits: Vec<bool>)
    ensures
        bits@ == bits_of_bytes(bytes@),
{
    let mut w = BitWriter::new();
    w.write_bytes(bytes);
    assert(Seq::<bool>::empty() + bits_of_bytes(bytes@) =~= bits_of_bytes(bytes@));
    w.bits
}

} // verus!
