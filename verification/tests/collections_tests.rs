use space_engineers::bits::{BitReader, BitWriter};
use space_engineers::collections::{Tuple, VarMap};
use space_engineers::wire::{BitAligned, BitCodec, Varint};
use std::collections::HashMap;

#[test]
fn var_map_basics() {
    let mut m: VarMap<u32, String> = VarMap::new();
    assert!(m.is_empty());
    assert_eq!(m.insert(1, "one".to_string()), None);
    assert_eq!(m.insert(1, "uno".to_string()), Some("one".to_string()));
    assert_eq!(m.get(&1), Some(&"uno".to_string()));
    assert_eq!(m.get(&2), None);
    assert_eq!(m.len(), 1);
    let h: HashMap<u32, String> = m.clone().into();
    assert_eq!(h.len(), 1);
    let back: VarMap<u32, String> = h.into();
    assert_eq!(back, m);
    assert!(m.contains_key(&1));
}

#[test]
fn var_map_round_trip() {
    let mut m: VarMap<BitAligned<u8>, Varint<u32>> = VarMap::new();
    m.insert(BitAligned(1), Varint(300));
    m.insert(BitAligned(2), Varint(5));
    let mut w = BitWriter::new();
    m.encode(&mut w);
    let bytes = w.to_bytes();
    // Count 2, then two pairs of one key byte and a varint value (2 + 1 bytes).
    assert_eq!(bytes.len(), 1 + 3 + 2);
    assert_eq!(bytes[0], 2);
    let mut r = BitReader::from_bytes(&bytes);
    let back = VarMap::<BitAligned<u8>, Varint<u32>>::decode(&mut r).unwrap();
    assert_eq!(back, m);
}

#[test]
fn var_map_later_pair_wins() {
    // Count 2, key 7 -> 1, key 7 -> 9.
    let bytes = [2u8, 7, 1, 7, 9];
    let mut r = BitReader::from_bytes(&bytes);
    let m = VarMap::<BitAligned<u8>, BitAligned<u8>>::decode(&mut r).unwrap();
    assert_eq!(m.len(), 1);
    assert_eq!(m.get(&BitAligned(7)), Some(&BitAligned(9)));
}

#[test]
fn tuple_round_trip() {
    let t = Tuple::new(BitAligned(0x1234u16), Varint(3u32));
    let mut w = BitWriter::new();
    t.encode(&mut w);
    let bytes = w.to_bytes();
    assert_eq!(bytes, vec![0x34, 0x12, 3]);
    let mut r = BitReader::from_bytes(&bytes);
    let back = Tuple::<BitAligned<u16>, Varint<u32>>::decode(&mut r).unwrap();
    assert_eq!(back, t);
    let pair: (BitAligned<u16>, Varint<u32>) = back.into();
    assert_eq!(pair.1 .0, 3);
    let again: Tuple<BitAligned<u16>, Varint<u32>> = pair.into();
    assert_eq!(again, t);
}
