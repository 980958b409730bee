use space_engineers::bits::{BitReader, BitWriter};
use space_engineers::state_groups::{parse_state_group_bytes, StateGroupEntry, StateGroups};
use space_engineers::wire::Varint;

#[test]
fn empty_state_groups_round_trip() {
    let groups = StateGroups { entries: vec![] };
    let mut w = BitWriter::new();
    groups.encode(&mut w, false);
    let bytes = w.to_bytes();
    assert_eq!(bytes, vec![0, 0]);
    let mut r = BitReader::from_bytes(&bytes);
    assert!(StateGroups::decode(&mut r, false).unwrap().entries.is_empty());
}

#[test]
fn written_entry_terminator_order() {
    let groups = StateGroups {
        entries: vec![StateGroupEntry { network_id: Varint(5), size_bits: 16, data: vec![0xAA, 0xBB] }],
    };
    // Into an empty writer the terminator comes out in order; the size and
    // data come out with their bytes reversed.
    let mut w = BitWriter::new();
    groups.encode(&mut w, false);
    let bytes = w.to_bytes();
    assert_eq!(bytes, vec![0xB9, 0xC8, 0x05, 0x00, 0x10, 0xBB, 0xAA, 0x00, 0x00]);
    // The reversed size reads as 4096 bits, more than there is: no entry.
    let mut r = BitReader::from_bytes(&bytes);
    assert!(StateGroups::decode(&mut r, false).unwrap().entries.is_empty());

    // After other fields the terminator comes out reversed as well.
    let mut w = BitWriter::new();
    w.write_bytes(&[0x7F]);
    groups.encode(&mut w, false);
    let bytes = w.to_bytes();
    assert_eq!(bytes, vec![0x7F, 0xC8, 0xB9, 0x05, 0x00, 0x10, 0xBB, 0xAA, 0x00, 0x00]);
    // The reader takes 0xB9C8 for a final terminator: no entry reads back.
    let mut r = BitReader::from_bytes(&bytes[1..]);
    assert!(StateGroups::decode(&mut r, false).unwrap().entries.is_empty());
}

#[test]
fn second_entry_terminator_is_reversed() {
    let entry = |id: u32| StateGroupEntry { network_id: Varint(id), size_bits: 8, data: vec![0x11] };
    let groups = StateGroups { entries: vec![entry(1), entry(2)] };
    let mut w = BitWriter::new();
    groups.encode(&mut w, false);
    assert_eq!(
        w.to_bytes(),
        vec![0xB9, 0xC8, 0x01, 0x00, 0x08, 0x11, 0xC8, 0xB9, 0x02, 0x00, 0x08, 0x11, 0x00, 0x00]
    );
}

#[test]
fn state_group_bytes_parse() {
    // Terminator 51385 little-endian, network ID 5, size 12 bits (i16), two
    // data bytes, then a final terminator.
    let bytes = [0xB9, 0xC8, 0x05, 0x0C, 0x00, 0x12, 0x34, 0x00, 0x00];
    let (entries, terminator) = parse_state_group_bytes(&bytes, false).unwrap();
    assert_eq!(entries.len(), 1);
    assert_eq!(entries[0].network_id.0, 5);
    assert_eq!(entries[0].size_bits, 12);
    assert_eq!(entries[0].data, vec![0x12, 0x34]);
    assert_eq!(terminator, 0);
}
