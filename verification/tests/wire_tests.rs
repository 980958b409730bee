use space_engineers::bits::{BitReader, BitWriter};
use space_engineers::nullable::Nullable;
use space_engineers::wire::{BitAligned, BitBool, BitCodec, VarBytes, VarString, VarVec, Varint};

#[test]
fn test_varint_default() {
    let v: Varint<u32> = Varint::default();
    assert_eq!(v.0, 0);
}

#[test]
fn test_varint_new() {
    let v = Varint::new(42u32);
    assert_eq!(v.0, 42);
}

#[test]
fn test_bit_aligned_deref() {
    let b = BitAligned(42i32);
    assert_eq!(*b, 42);
}

#[test]
fn test_bit_aligned_from() {
    let b: BitAligned<i32> = 42.into();
    assert_eq!(*b, 42);
}

#[test]
fn test_var_string_from() {
    let s = VarString::from("hello");
    assert_eq!(s.as_str(), "hello");
}

#[test]
fn test_var_string_into_string() {
    let s = VarString::from("hello");
    let owned: String = s.into_string();
    assert_eq!(owned, "hello");
}

#[test]
fn test_var_bytes_from() {
    let b = VarBytes::from(vec![1, 2, 3]);
    assert_eq!(b.as_slice(), &[1, 2, 3]);
}

#[test]
fn test_var_bytes_into_vec() {
    let b = VarBytes::from(vec![1, 2, 3]);
    let owned: Vec<u8> = b.into();
    assert_eq!(owned, vec![1, 2, 3]);
}

#[test]
fn test_nullable_is_some() {
    let n: Nullable<i32> = Nullable::some(42);
    assert!(n.is_some());

    let empty: Nullable<i32> = Nullable::none();
    assert!(empty.is_none());

    let default: Nullable<i32> = Nullable::default();
    assert!(default.is_none());
}

#[test]
fn test_nullable_unwrap() {
    let n: Nullable<i32> = Nullable::some(42);
    assert_eq!(n.unwrap(), 42);
}

#[test]
fn test_nullable_from() {
    let n: Nullable<i32> = 42.into();
    assert!(n.is_some());
    assert_eq!(n.unwrap(), 42);

    let opt: Nullable<i32> = Some(42).into();
    assert_eq!(opt.unwrap(), 42);

    let none: Nullable<i32> = None.into();
    assert!(none.is_none());
}

#[test]
fn test_nullable_deref() {
    let n: Nullable<i32> = Nullable::some(42);
    assert_eq!(n.map(|x| x * 2), Some(84));
    assert_eq!(n.unwrap_or(0), 42);
}

fn encode_to_bytes<T: BitCodec>(v: &T) -> Vec<u8> {
    let mut w = BitWriter::new();
    v.encode(&mut w);
    w.to_bytes()
}

#[test]
fn varint_bytes_of_300() {
    // 300 = 0b1_0010_1100: low group 0x2C with the continuation bit, then 0x02.
    assert_eq!(encode_to_bytes(&Varint(300u32)), vec![0xAC, 0x02]);
    let mut r = BitReader::from_bytes(&[0xAC, 0x02]);
    assert_eq!(Varint::<u32>::decode(&mut r).unwrap().0, 300);
}

#[test]
fn varint_too_long_is_an_error() {
    let bytes = [0xFFu8; 11];
    let mut r = BitReader::from_bytes(&bytes);
    assert!(Varint::<u64>::decode(&mut r).is_err());
}

#[test]
fn varint_out_of_range_for_u32() {
    // 2^32 does not fit in a u32.
    let bytes = [0x80u8, 0x80, 0x80, 0x80, 0x10];
    let mut r = BitReader::from_bytes(&bytes);
    assert!(Varint::<u32>::decode(&mut r).is_err());
}

#[test]
fn bit_aligned_at_odd_offset() {
    let mut w = BitWriter::new();
    BitBool(true).encode(&mut w);
    BitAligned(0x1234u16 as i16).encode(&mut w);
    let bytes = w.to_bytes();
    // One set bit, then 0x34 and 0x12 shifted left by one bit.
    assert_eq!(bytes, vec![0x69, 0x24, 0x00]);
    let mut r = BitReader::from_bytes(&bytes);
    assert!(BitBool::decode(&mut r).unwrap().0);
    assert_eq!(BitAligned::<i16>::decode(&mut r).unwrap().0, 0x1234);
}

#[test]
fn var_string_round_trip() {
    let s = VarString::from("héllo");
    let bytes = encode_to_bytes(&s);
    // Length prefix 6 (UTF-8 bytes), then the bytes.
    assert_eq!(bytes[0], 6);
    let mut r = BitReader::from_bytes(&bytes);
    assert_eq!(VarString::decode(&mut r).unwrap().as_str(), "héllo");
}

#[test]
fn var_string_invalid_utf8() {
    let bytes = [2u8, 0xC3, 0x28];
    let mut r = BitReader::from_bytes(&bytes);
    assert!(VarString::decode(&mut r).is_err());
}

#[test]
fn var_bytes_incomplete() {
    let bytes = [5u8, 1, 2];
    let mut r = BitReader::from_bytes(&bytes);
    assert!(VarBytes::decode(&mut r).is_err());
}

#[test]
fn var_vec_round_trip() {
    let v: VarVec<BitAligned<u16>> = VarVec::from(vec![BitAligned(1u16), BitAligned(0xBEEF)]);
    let bytes = encode_to_bytes(&v);
    assert_eq!(bytes, vec![2, 1, 0, 0xEF, 0xBE]);
    let mut r = BitReader::from_bytes(&bytes);
    let back = VarVec::<BitAligned<u16>>::decode(&mut r).unwrap();
    assert_eq!(back.len(), 2);
    assert_eq!(back.as_slice()[1].0, 0xBEEF);
}

#[test]
fn nullable_round_trip() {
    let n: Nullable<BitAligned<u8>> = Nullable::some(BitAligned(7));
    let bytes = encode_to_bytes(&n);
    assert_eq!(bytes, vec![0x0F, 0x00]);
    let mut r = BitReader::from_bytes(&bytes);
    assert_eq!(Nullable::<BitAligned<u8>>::decode(&mut r).unwrap().0, Some(BitAligned(7)));
}
