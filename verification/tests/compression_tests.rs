use space_engineers::compression::{compress, decompress, CompressionError};

#[test]
fn round_trip() {
    let original = b"Hello, Space Engineers!";
    let compressed = compress(original);

    // First 4 bytes are the LE uncompressed length
    let stored_len = u32::from_le_bytes([compressed[0], compressed[1], compressed[2], compressed[3]]);
    assert_eq!(stored_len as usize, original.len());

    let decompressed = decompress(&compressed).unwrap();
    assert_eq!(decompressed, original);
}

#[test]
fn round_trip_empty() {
    let original: &[u8] = b"";
    let compressed = compress(original);
    let decompressed = decompress(&compressed).unwrap();
    assert_eq!(decompressed, original);
}

#[test]
fn decompress_too_short() {
    assert!(decompress(&[0, 1, 2]).is_err());
    assert_eq!(decompress(&[0, 1, 2]), Err(CompressionError::TooShort));
}

#[test]
fn compressed_body_is_gzip() {
    let compressed = compress(b"abc");
    // gzip magic after the 4-byte prefix
    assert_eq!(&compressed[4..6], &[0x1f, 0x8b]);
}

#[test]
fn decompress_rejects_garbage() {
    assert_eq!(decompress(&[3, 0, 0, 0, 1, 2, 3, 4]), Err(CompressionError::InvalidGzip));
}

#[test]
fn decompress_ignores_the_prefix_value() {
    let mut compressed = compress(b"payload");
    compressed[0] = 99;
    assert_eq!(decompress(&compressed).unwrap(), b"payload");
}
