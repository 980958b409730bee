//! State groups of the server state sync packet.
//!
//! After the fixed fields of the packet, the rest of the stream holds
//! whole bytes: state groups, each opened by the terminator 51385 (two
//! bytes, little-endian), then a network ID (up to five 7-bit groups), a
//! size in bits (four bytes when streaming, else two, little-endian,
//! signed) and `ceil(size / 8)` bytes of data. A different two-byte value
//! ends the list; running out of bytes ends it with terminator 0.
use crate::bits::{
    bits_of_bytes, lemma_bits_of_bytes_len, lemma_two_pow_add, lemma_two_pow_facts, lemma_two_pow_monotone,
    lemma_two_pow_values, two_pow, BitReader, BitWriter, DecodeError, Decoded,
};
use crate::wire::{bytes_at, read_bytes, write_varint, BitCodec, Varint};
use vstd::prelude::*;

verus! {

/// One state group entry.
#[derive(Debug, PartialEq, Clone)]
pub struct StateGroupEntry {
    /// Network ID of the state group.
    pub network_id: Varint<u32>,
    /// Size of the state group data in bits.
    pub size_bits: i32,
    /// Raw state group data.
    pub data: Vec<u8>,
}

/// The view of a [`StateGroupEntry`].
pub struct StateGroupEntryView {
    pub network_id: Varint<u32>,
    pub size_bits: i32,
    pub data: Seq<u8>,
}

impl View for StateGroupEntry {
    type V = StateGroupEntryView;

    open spec fn view(&self) -> StateGroupEntryView {
        StateGroupEntryView { network_id: self.network_id, size_bits: self.size_bits, data: self.data@ }
    }
}

/// The state group entries of a server state sync packet.
#[derive(Debug, PartialEq, Default, Clone)]
pub struct StateGroups {
    pub entries: Vec<StateGroupEntry>,
}

impl View for StateGroups {
    type V = Seq<StateGroupEntryView>;

    open spec fn view(&self) -> Seq<StateGroupEntryView> {
        self.entries@.map_values(|e: StateGroupEntry| e@)
    }
}

/// The terminator that opens each state group.
pub const STATE_GROUP_TERMINATOR: u16 = 51385;

/// The little-endian 16-bit value at `p`.
pub open spec fn le16(rb: Seq<u8>, p: int) -> nat {
    rb[p] as nat + 256 * (rb[p + 1] as nat)
}

/// The contribution of the `j`-th byte of a network ID to its 32-bit value.
pub open spec fn nid_chunk(b: u8, j: nat) -> nat {
    if j < 4 {
        (b as nat % 128) * two_pow(7 * j)
    } else {
        (b as nat % 16) * two_pow(28)
    }
}

/// A network ID from byte `j` of it on, with `acc` the value of the
/// bytes before: the value and the position after it, or `None` when the
/// bytes run out first. At most five bytes are read.
pub open spec fn spec_group_nid(rb: Seq<u8>, pos: int, j: nat, acc: nat) -> Option<(u32, int)>
    decreases 5 - j,
{
    if j >= 5 {
        Some((acc as u32, pos))
    } else if pos < 0 || pos >= rb.len() {
        None
    } else {
        let b = rb[pos];
        let acc2 = acc + nid_chunk(b, j);
        if b < 128 {
            Some((acc2 as u32, pos + 1))
        } else {
            spec_group_nid(rb, pos + 1, j + 1, acc2)
        }
    }
}

/// The size in bits at `p`: four bytes when streaming, else two bytes
/// sign-extended.
pub open spec fn spec_size_bits(rb: Seq<u8>, p: int, streaming: bool) -> i32 {
    if streaming {
        ((rb[p] as nat + 256 * (rb[p + 1] as nat) + 65536 * (rb[p + 2] as nat) + 16777216 * (
        rb[p + 3] as nat)) as u32) as i32
    } else {
        (((rb[p] as nat + 256 * (rb[p + 1] as nat)) as u16) as i16) as i32
    }
}

/// Integer division rounding toward zero.
pub open spec fn div_toward_zero(a: int, b: int) -> int {
    if a >= 0 {
        a / b
    } else {
        -((-a) / b)
    }
}

pub proof fn lemma_group_nid_advances(rb: Seq<u8>, pos: int, j: nat, acc: nat)
    ensures
        spec_group_nid(rb, pos, j, acc) matches Some((_, p)) ==> p >= pos,
    decreases 5 - j,
{
    if j < 5 && 0 <= pos < rb.len() && rb[pos] >= 128 {
        lemma_group_nid_advances(rb, pos + 1, j + 1, acc + nid_chunk(rb[pos], j));
    }
}

/// Reading state groups from byte `pos` of `rb` on, with `acc` the
/// entries before: the entries and the value that ended the list, or
/// `None` where a size makes the byte arithmetic overflow or the data
/// slice run backwards.
pub open spec fn spec_groups_from(
    rb: Seq<u8>,
    pos: int,
    streaming: bool,
    acc: Seq<StateGroupEntryView>,
) -> Option<(Seq<StateGroupEntryView>, u16)>
    decreases rb.len() - pos,
{
    let total = rb.len() as int;
    if pos < 0 || pos + 2 >= total {
        Some(
            (
                acc,
                if 0 <= pos && pos + 2 <= total {
                    le16(rb, pos) as u16
                } else {
                    0u16
                },
            ),
        )
    } else if le16(rb, pos) != STATE_GROUP_TERMINATOR as nat {
        Some((acc, le16(rb, pos) as u16))
    } else {
        match spec_group_nid(rb, pos + 2, 0, 0) {
            None => Some((acc, 0u16)),
            Some((nid, p2)) => if p2 + 2 > total || (streaming && p2 + 4 > total) {
                Some((acc, 0u16))
            } else {
                let size = spec_size_bits(rb, p2, streaming);
                let p3 = if streaming {
                    p2 + 4
                } else {
                    p2 + 2
                };
                if size + 7 > i32::MAX {
                    None
                } else {
                    let du = (div_toward_zero(size + 7, 8) as usize) as int;
                    if p3 + du > usize::MAX {
                        None
                    } else if p3 + du > total {
                        Some((acc, 0u16))
                    } else {
                        proof {
                            lemma_group_nid_advances(rb, pos + 2, 0, 0);
                        }
                        spec_groups_from(
                            rb,
                            p3 + du,
                            streaming,
                            acc.push(
                                StateGroupEntryView {
                                    network_id: Varint(nid),
                                    size_bits: size,
                                    data: rb.subrange(p3, p3 + du),
                                },
                            ),
                        )
                    }
                }
            },
        }
    }
}

/// State groups in the rest of the stream at `pos`: its whole bytes are
/// read, then parsed.
pub open spec fn spec_state_groups(s: Seq<bool>, pos: int, streaming: bool) -> Decoded<
    Seq<StateGroupEntryView>,
> {
    let m = ((s.len() - pos) / 8) as nat;
    match spec_groups_from(bytes_at(s, pos, m), 0, streaming, Seq::empty()) {
        Some((es, _)) => Decoded::Value(es, pos + 8 * m),
        None => Decoded::OutOfDomain,
    }
}

/// Read a network ID of a state group.
fn read_group_nid(rb: &[u8], pos: usize) -> (r: Option<(u32, usize)>)
    ensures
        match spec_group_nid(rb@, pos as int, 0, 0) {
            Some((nid, p)) => r == Some((nid, p as usize)) && p <= rb@.len(),
            None => r is None,
        },
{
    let mut network_id: u32 = 0;
    let mut mult: u32 = 1;
    let mut j: usize = 0;
    let mut p = pos;
    proof {
        lemma_two_pow_values();
        reveal_with_fuel(two_pow, 1);
    }
    while j < 5
        invariant
            j <= 5,
            p == pos + j,
            j > 0 ==> p <= rb@.len(),
            j < 4 ==> mult == two_pow(7 * j as nat),
            j == 4 ==> mult == two_pow(28),
            network_id < two_pow(7 * j as nat),
            j <= 4 ==> network_id < two_pow(7 * j as nat),
            two_pow(32) == 0x1_0000_0000,
            spec_group_nid(rb@, p as int, j as nat, network_id as nat) == spec_group_nid(
                rb@,
                pos as int,
                0,
                0,
            ),
        decreases 5 - j,
    {
        if p >= rb.len() {
            return None;
        }
        let b = rb[p];
        proof {
            lemma_two_pow_add(7 * j as nat, 7);
            assert(7 * j + 7 == 7 * (j + 1));
            lemma_two_pow_monotone(7 * j as nat, 28);
            lemma_two_pow_monotone(7 * (j + 1) as nat, 35);
            lemma_two_pow_add(28, 4);
            lemma_two_pow_values();
        }
        let chunk: u32 = if j < 4 {
            assert((b as u32 % 128) * mult < two_pow(7 * (j + 1) as nat)) by (nonlinear_arith)
                requires
                    b as u32 % 128 < 128,
                    mult >= 1,
                    two_pow(7 * (j + 1) as nat) == mult * 128,
            ;
            proof {
                lemma_two_pow_monotone(7 * (j + 1) as nat, 28);
            }
            (b as u32 % 128) * mult
        } else {
            assert((b as u32 % 16) * mult < two_pow(32)) by (nonlinear_arith)
                requires
                    b as u32 % 16 < 16,
                    mult >= 1,
                    mult == two_pow(28),
                    two_pow(32) == two_pow(28) * 16,
            ;
            (b as u32 % 16) * mult
        };
        assert(chunk == nid_chunk(b, j as nat));
        proof {
            if j < 4 {
                assert(network_id + chunk < two_pow(7 * (j + 1) as nat)) by (nonlinear_arith)
                    requires
                        network_id < mult,
                        chunk == (b as u32 % 128) * mult,
                        b as u32 % 128 <= 127,
                        two_pow(7 * (j + 1) as nat) == mult * 128,
                ;
                lemma_two_pow_monotone(7 * (j + 1) as nat, 32);
            } else {
                assert(network_id + chunk < two_pow(32)) by (nonlinear_arith)
                    requires
                        network_id < two_pow(28),
                        chunk == (b as u32 % 16) * mult,
                        b as u32 % 16 <= 15,
                        mult == two_pow(28),
                        two_pow(32) == two_pow(28) * 16,
                ;
            }
        }
        network_id = network_id + chunk;
        p = p + 1;
        if b < 128 {
            return Some((network_id, p));
        }
        j = j + 1;
        if j < 4 {
            mult = mult * 128;
        } else if j == 4 {
            mult = mult * 128;
        }
    }
    Some((network_id, p))
}

/// Parse state groups from whole bytes: the entries and the value that
/// ended the list.
pub fn parse_state_group_bytes(rb: &[u8], streaming: bool) -> (res: Result<
    (Vec<StateGroupEntry>, u16),
    DecodeError,
>)
    ensures
        match spec_groups_from(rb@, 0, streaming, Seq::empty()) {
            Some((es, t)) => res matches Ok((v, t2)) && v@.map_values(|e: StateGroupEntry| e@) == es
                && t2 == t,
            None => res == Err::<(Vec<StateGroupEntry>, u16), DecodeError>(DecodeError::OutOfRange),
        },
{
    let total = rb.len();
    let mut entries: Vec<StateGroupEntry> = Vec::new();
    let mut pos: usize = 0;
    assert(entries@.map_values(|e: StateGroupEntry| e@) =~= Seq::<StateGroupEntryView>::empty());
    while pos < total && total - pos > 2
        invariant
            total == rb@.len(),
            pos <= total,
            spec_groups_from(rb@, pos as int, streaming, entries@.map_values(|e: StateGroupEntry| e@))
                == spec_groups_from(rb@, 0, streaming, Seq::empty()),
        decreases total - pos,
    {
        let ghost acc = entries@.map_values(|e: StateGroupEntry| e@);
        let terminator: u16 = (rb[pos] as u16) | ((rb[pos + 1] as u16) << 8);
        assert(terminator as nat == le16(rb@, pos as int)) by {
            let b0 = rb[pos as int];
            let b1 = rb[pos + 1];
            assert(((b0 as u16) | ((b1 as u16) << 8)) as nat == b0 as nat + 256 * (b1 as nat))
                by (bit_vector);
        }
        if terminator != STATE_GROUP_TERMINATOR {
            return Ok((entries, terminator));
        }
        let (network_id, p2) = match read_group_nid(rb, pos + 2) {
            Some(x) => x,
            None => {
                return Ok((entries, 0));
            },
        };
        proof {
            lemma_group_nid_advances(rb@, pos + 2, 0, 0);
        }
        if p2 > total || total - p2 < 2 {
            return Ok((entries, 0));
        }
        if streaming && total - p2 < 4 {
            return Ok((entries, 0));
        }
        let size_bits: i32 = if streaming {
            let u: u32 = (rb[p2] as u32) | ((rb[p2 + 1] as u32) << 8) | ((rb[p2 + 2] as u32)
                << 16) | ((rb[p2 + 3] as u32) << 24);
            assert(u as nat == rb[p2 as int] as nat + 256 * (rb[p2 + 1] as nat) + 65536 * (rb[p2
                + 2] as nat) + 16777216 * (rb[p2 + 3] as nat)) by {
                let b0 = rb[p2 as int];
                let b1 = rb[p2 + 1];
                let b2 = rb[p2 + 2];
                let b3 = rb[p2 + 3];
                assert(((b0 as u32) | ((b1 as u32) << 8) | ((b2 as u32) << 16) | ((b3 as u32)
                    << 24)) as nat == b0 as nat + 256 * (b1 as nat) + 65536 * (b2 as nat)
                    + 16777216 * (b3 as nat)) by (bit_vector);
            }
            #[verifier::truncate]
            (u as i32)
        } else {
            let u: u16 = (rb[p2] as u16) | ((rb[p2 + 1] as u16) << 8);
            assert(u as nat == rb[p2 as int] as nat + 256 * (rb[p2 + 1] as nat)) by {
                let b0 = rb[p2 as int];
                let b1 = rb[p2 + 1];
                assert(((b0 as u16) | ((b1 as u16) << 8)) as nat == b0 as nat + 256 * (b1 as nat))
                    by (bit_vector);
            }
            (#[verifier::truncate]
            (u as i16)) as i32
        };
        assert(size_bits == spec_size_bits(rb@, p2 as int, streaming));
        let p3 = if streaming {
            p2 + 4
        } else {
            p2 + 2
        };
        if size_bits > i32::MAX - 7 {
            return Err(DecodeError::OutOfRange);
        }
        let a: i64 = size_bits as i64 + 7;
        let d: i64 = if a >= 0 {
            a / 8
        } else {
            -((-a) / 8)
        };
        assert(d == div_toward_zero(size_bits + 7, 8));
        let data_bytes = #[verifier::truncate]
        (d as usize);
        if data_bytes > usize::MAX - p3 {
            return Err(DecodeError::OutOfRange);
        }
        if p3 + data_bytes > total {
            return Ok((entries, 0));
        }
        let mut data: Vec<u8> = Vec::new();
        let mut i = p3;
        while i < p3 + data_bytes
            invariant
                p3 <= i <= p3 + data_bytes <= total,
                total == rb@.len(),
                data@ =~= rb@.subrange(p3 as int, i as int),
            decreases p3 + data_bytes - i,
        {
            data.push(rb[i]);
            i = i + 1;
        }
        let entry = StateGroupEntry { network_id: Varint(network_id), size_bits, data };
        entries.push(entry);
        proof {
            assert(entries@.map_values(|e: StateGroupEntry| e@) =~= acc.push(
                StateGroupEntryView {
                    network_id: Varint(network_id),
                    size_bits,
                    data: rb@.subrange(p3 as int, p3 + data_bytes),
                },
            ));
        }
        pos = p3 + data_bytes;
    }
    let fin: u16 = if pos < total && total - pos == 2 {
        let t: u16 = (rb[pos] as u16) | ((rb[pos + 1] as u16) << 8);
        assert(t as nat == le16(rb@, pos as int)) by {
            let b0 = rb[pos as int];
            let b1 = rb[pos + 1];
            assert(((b0 as u16) | ((b1 as u16) << 8)) as nat == b0 as nat + 256 * (b1 as nat))
                by (bit_vector);
        }
        t
    } else {
        0
    };
    Ok((entries, fin))
}

/// The big-endian bytes of a 32-bit value.
pub open spec fn be_bytes32(v: i32) -> Seq<u8> {
    let u = (v as u32) as nat;
    seq![(u / 16777216) as u8, ((u / 65536) % 256) as u8, ((u / 256) % 256) as u8, (u % 256) as u8]
}

/// The big-endian bytes of a 16-bit value.
pub open spec fn be_bytes16(v: i16) -> Seq<u8> {
    let u = (v as u16) as nat;
    seq![(u / 256) as u8, (u % 256) as u8]
}

/// The terminator bytes the writer emits: in order (`0xB9 0xC8`, 51385
/// little-endian) when they are the first thing written, else last byte
/// first (`0xC8 0xB9`). The game's bit-stream writer emits a multi-byte
/// field in order only while nothing has been written in its
/// least-significant-bit-first mode, which every other field uses.
pub open spec fn terminator_bytes(first: bool) -> Seq<u8> {
    if first {
        seq![0xB9u8, 0xC8u8]
    } else {
        seq![0xC8u8, 0xB9u8]
    }
}

/// The bits the writer emits for one entry, `first` when nothing was
/// written before it. Past the terminator it emits the bytes of each
/// multi-byte field last byte first: the size big-endian (four bytes when
/// streaming, else the low two) and the data in reverse order; the network
/// ID is a variable-length integer.
pub open spec fn spec_group_bits(e: StateGroupEntryView, streaming: bool, first: bool) -> Seq<bool> {
    bits_of_bytes(terminator_bytes(first)) + Varint::<u32>::spec_encode(e.network_id) + bits_of_bytes(
        if streaming {
            be_bytes32(e.size_bits)
        } else {
            be_bytes16(e.size_bits as i16)
        },
    ) + bits_of_bytes(e.data.reverse())
}

/// The bits of the entries one after another.
pub open spec fn spec_groups_bits(es: Seq<StateGroupEntryView>, streaming: bool, fresh: bool) -> Seq<bool>
    decreases es.len(),
{
    if es.len() == 0 {
        Seq::empty()
    } else {
        spec_groups_bits(es.drop_last(), streaming, fresh) + spec_group_bits(
            es.last(),
            streaming,
            fresh && es.len() == 1,
        )
    }
}

/// The bits the writer emits for a list of state groups: the entries, then
/// two zero bytes; `fresh` when nothing was written before them.
pub open spec fn spec_encode_state_groups(es: Seq<StateGroupEntryView>, streaming: bool, fresh: bool) -> Seq<
    bool,
> {
    spec_groups_bits(es, streaming, fresh) + bits_of_bytes(seq![0u8, 0u8])
}

/// The bytes of `data` last first.
fn reversed_bytes(data: &Vec<u8>) -> (out: Vec<u8>)
    ensures
        out@ == data@.reverse(),
{
    let mut out: Vec<u8> = Vec::new();
    let mut i = data.len();
    while i > 0
        invariant
            i <= data.len(),
            out@ =~= data@.subrange(i as int, data@.len() as int).reverse(),
        decreases i,
    {
        i = i - 1;
        out.push(data[i]);
        assert(out@ =~= data@.subrange(i as int, data@.len() as int).reverse());
    }
    assert(data@.subrange(0, data@.len() as int) =~= data@);
    out
}

impl StateGroupEntry {
    /// Append the bits the writer emits for this entry. The bits already
    /// in the writer are taken to be the game's least-significant-bit-first
    /// fields, so the terminator comes out in order only into an empty
    /// writer.
    pub fn encode(&self, w: &mut BitWriter, streaming: bool)
        ensures
            final(w).bits@ == old(w).bits@ + spec_group_bits(self@, streaming, old(w).bits@.len() == 0),
    {
        let ghost first = w.bits@.len() == 0;
        let term: [u8; 2] = if w.bits.len() == 0 {
            [0xB9, 0xC8]
        } else {
            [0xC8, 0xB9]
        };
        w.write_bytes(&term);
        assert(term@ =~= terminator_bytes(first));
        self.network_id.encode(w);
        let size_bytes: Vec<u8> = if streaming {
            let u = self.size_bits as u32;
            vec![(u / 16777216) as u8, ((u / 65536) % 256) as u8, ((u / 256) % 256) as u8, (u % 256) as u8]
        } else {
            let u = (self.size_bits as i16) as u16;
            vec![(u / 256) as u8, (u % 256) as u8]
        };
        assert(size_bytes@ =~= (if streaming {
            be_bytes32(self.size_bits)
        } else {
            be_bytes16(self.size_bits as i16)
        }));
        w.write_bytes(size_bytes.as_slice());
        let data = reversed_bytes(&self.data);
        w.write_bytes(data.as_slice());
        assert(w.bits@ =~= old(w).bits@ + spec_group_bits(self@, streaming, first));
    }
}

impl StateGroups {
    /// Append the bits the writer emits for these state groups. As for an
    /// entry, the first terminator comes out in order only into an empty
    /// writer.
    pub fn encode(&self, w: &mut BitWriter, streaming: bool)
        ensures
            final(w).bits@ == old(w).bits@ + spec_encode_state_groups(self@, streaming, old(w).bits@.len() == 0),
    {
        let ghost before = w.bits@;
        let ghost fresh = before.len() == 0;
        let ghost es = self@;
        let mut i: usize = 0;
        assert(es.take(0) =~= Seq::<StateGroupEntryView>::empty());
        assert(before + spec_groups_bits(Seq::<StateGroupEntryView>::empty(), streaming, fresh) =~= before);
        while i < self.entries.len()
            invariant
                i <= self.entries.len(),
                es == self@,
                fresh == (before.len() == 0),
                w.bits@ == before + spec_groups_bits(es.take(i as int), streaming, fresh),
                i > 0 ==> w.bits@.len() > 0,
            decreases self.entries.len() - i,
        {
            let ghost at = w.bits@;
            self.entries[i].encode(w, streaming);
            proof {
                let t = es.take(i as int + 1);
                assert(t.drop_last() =~= es.take(i as int));
                assert(t.last() == self.entries@[i as int]@);
                assert((at.len() == 0) == (fresh && t.len() == 1)) by {
                    if i == 0 {
                        assert(es.take(0) =~= Seq::<StateGroupEntryView>::empty());
                        assert(at =~= before);
                    }
                }
                assert(before + spec_groups_bits(es.take(i as int), streaming, fresh) + spec_group_bits(
                    self.entries@[i as int]@,
                    streaming,
                    at.len() == 0,
                ) =~= before + spec_groups_bits(t, streaming, fresh));
                assert(bits_of_bytes(terminator_bytes(at.len() == 0)).len() > 0) by {
                    lemma_bits_of_bytes_len(terminator_bytes(at.len() == 0));
                }
            }
            i = i + 1;
        }
        assert(es.take(self.entries.len() as int) =~= es);
        let fin: [u8; 2] = [0, 0];
        w.write_bytes(&fin);
        assert(fin@ =~= seq![0u8, 0u8]);
        assert(w.bits@ =~= before + spec_encode_state_groups(es, streaming, fresh));
    }

    /// Read state groups from the rest of the stream: its whole bytes are
    /// read, then parsed; the value that ended the list is dropped.
    pub fn decode(r: &mut BitReader, streaming: bool) -> (res: Result<StateGroups, DecodeError>)
        requires
            old(r).wf(),
        ensures
            final(r).bits@ == old(r).bits@,
            final(r).pos <= final(r).bits@.len(),
            match spec_state_groups(old(r).bits@, old(r).pos as int, streaming) {
                Decoded::Value(v, end) => res matches Ok(g) && g@ == v && final(r).pos == end,
                Decoded::Failed(e) => res == Err::<StateGroups, DecodeError>(e) && e != DecodeError::OutOfRange,
                Decoded::OutOfDomain => res == Err::<StateGroups, DecodeError>(
                    DecodeError::OutOfRange,
                ),
            },
    {
        let m = r.remaining() / 8;
        let bytes = match read_bytes(r, m) {
            Ok(b) => b,
            Err(e) => {
                return Err(e);
            },
        };
        match parse_state_group_bytes(bytes.as_slice(), streaming) {
            Ok((entries, _)) => Ok(StateGroups { entries }),
            Err(e) => Err(e),
        }
    }
}


/// The four little-endian bytes of a 32-bit number.
pub open spec fn le_bytes32(u: u32) -> Seq<u8> {
    seq![(u % 256) as u8, ((u / 256) % 256) as u8, ((u / 65536) % 256) as u8, (u / 16777216) as u8]
}

/// The two little-endian bytes of a 16-bit number.
pub open spec fn le_bytes16(u: u16) -> Seq<u8> {
    seq![(u % 256) as u8, (u / 256) as u8]
}

/// The size field of a state group as the game lays it out: the size as a
/// little-endian `i32` when streaming, else as a little-endian `i16`.
pub open spec fn size_field(size: i32, streaming: bool) -> Seq<u8> {
    if streaming {
        le_bytes32(size as u32)
    } else {
        le_bytes16(size as u16)
    }
}

/// The size read from a size field is the size it lays out.
proof fn lemma_size_field(rb: Seq<u8>, p: int, size: i32, streaming: bool)
    requires
        0 <= p,
        0 <= size,
        !streaming ==> size <= i16::MAX,
        p + size_field(size, streaming).len() <= rb.len(),
        rb.subrange(p, p + size_field(size, streaming).len()) == size_field(size, streaming),
    ensures
        spec_size_bits(rb, p, streaming) == size,
{
    let f = size_field(size, streaming);
    if streaming {
        let u = size as u32;
        assert(rb[p] == f[0] && rb[p + 1] == f[1] && rb[p + 2] == f[2] && rb[p + 3] == f[3]);
        assert((u % 256) + 256 * ((u / 256) % 256) + 65536 * ((u / 65536) % 256) + 16777216 * (u / 16777216) == u)
            by (bit_vector);
        assert(((u as u32) as i32) == size) by (bit_vector)
            requires
                u == size as u32,
                0 <= size,
        ;
    } else {
        let u = size as u16;
        assert(rb[p] == f[0] && rb[p + 1] == f[1]);
        assert((u % 256) + 256 * (u / 256) == u) by (bit_vector);
        assert((((u as u16) as i16) as i32) == size) by (bit_vector)
            requires
                u == size as u16,
                0 <= size <= 0x7fff,
        ;
    }
}

/// A state group laid out as the game lays it out (the terminator 51385
/// in little-endian order, a one-byte network ID, the size in bits as a
/// little-endian `i32` when streaming or `i16` otherwise, then
/// `ceil(size / 8)` data bytes) is read as one entry with that network ID,
/// size and data, and reading goes on right after it.
pub proof fn lemma_read_laid_out_group(
    rb: Seq<u8>,
    pos: int,
    nid: u8,
    size: i32,
    data: Seq<u8>,
    streaming: bool,
    acc: Seq<StateGroupEntryView>,
)
    requires
        0 <= pos,
        nid < 128,
        0 <= size <= i32::MAX - 7,
        !streaming ==> size <= i16::MAX,
        data.len() == (size + 7) / 8,
        rb.len() <= usize::MAX,
        pos + 3 + size_field(size, streaming).len() + data.len() <= rb.len(),
        rb.subrange(pos, pos + 3 + size_field(size, streaming).len() + data.len()) == seq![0xB9u8, 0xC8u8, nid]
            + size_field(size, streaming) + data,
    ensures
        spec_groups_from(rb, pos, streaming, acc) == spec_groups_from(
            rb,
            pos + 3 + size_field(size, streaming).len() + data.len(),
            streaming,
            acc.push(StateGroupEntryView { network_id: Varint(nid as u32), size_bits: size, data }),
        ),
{
    let f = size_field(size, streaming);
    let laid = seq![0xB9u8, 0xC8u8, nid] + f + data;
    let end = pos + 3 + f.len() + data.len();
    assert(rb[pos] == laid[0] && rb[pos + 1] == laid[1] && rb[pos + 2] == laid[2]);
    assert(le16(rb, pos) == STATE_GROUP_TERMINATOR as nat);
    assert(two_pow(0) == 1);
    assert(rb[pos + 2] == nid);
    assert(nid_chunk(nid, 0) == nid as nat) by {
        reveal_with_fuel(two_pow, 1);
        assert(7 * 0nat == 0nat);
        assert(two_pow(7 * 0nat) == 1);
        assert(nid as nat % 128 == nid as nat);
        assert(nid_chunk(nid, 0) == (nid as nat % 128) * two_pow(7 * 0nat));
        let m: nat = nid as nat % 128;
        assert(m * 1 == m) by (nonlinear_arith);
    }
    assert(spec_group_nid(rb, pos + 2, 0, 0) == Some((nid as u32, pos + 3)));
    let p2 = pos + 3;
    assert(rb.subrange(p2, p2 + f.len()) =~= f) by {
        assert forall|k: int| 0 <= k < f.len() implies rb.subrange(p2, p2 + f.len())[k] == f[k] by {
            assert(rb[p2 + k] == laid[3 + k]);
        }
    }
    lemma_size_field(rb, p2, size, streaming);
    let p3 = p2 + f.len();
    assert(div_toward_zero(size + 7, 8) == data.len());
    assert(rb.subrange(p3, p3 + data.len()) =~= data) by {
        assert forall|k: int| 0 <= k < data.len() implies rb.subrange(p3, p3 + data.len())[k] == data[k] by {
            assert(rb[p3 + k] == laid[3 + f.len() + k]);
        }
    }
}

} // verus!
