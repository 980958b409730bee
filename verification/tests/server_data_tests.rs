use space_engineers::compression::CompressionError;
use base64::Engine;
use space_engineers::compression::compress;
use space_engineers::server_data::{
    decode_rules, decode_rules_defined, encode_rules, try_decode_rules, ServerDataError,
};

fn rules_of(pairs: &[(&str, &str)]) -> Vec<(String, String)> {
    pairs.iter().map(|(k, v)| (k.to_string(), v.to_string())).collect()
}

fn pseudo_random_bytes(n: usize) -> Vec<u8> {
    let mut x: u32 = 12345;
    (0..n)
        .map(|_| {
            x = x.wrapping_mul(1103515245).wrapping_add(12345);
            (x >> 16) as u8
        })
        .collect()
}

#[test]
fn round_trip_default() {
    // A default server data message encodes to no bytes.
    let rules = encode_rules(&[]);
    assert!(decode_rules_defined(&rules));
    assert_eq!(decode_rules(&rules).unwrap(), Vec::<u8>::new());
}

#[test]
fn round_trip_with_data() {
    let payload = [b"Test Server".as_slice(), b"Steam".as_slice()].concat();
    let rules = encode_rules(&payload);
    assert_eq!(decode_rules(&rules).unwrap(), payload);
}

#[test]
fn round_trip_payload() {
    let payload = pseudo_random_bytes(1000);
    let rules = encode_rules(&payload);
    assert!(decode_rules_defined(&rules));
    assert_eq!(decode_rules(&rules).unwrap(), payload);
}

#[test]
fn chunk_keys_are_sequential() {
    let payload = "A".repeat(500).into_bytes();
    let rules = encode_rules(&payload);
    let size = rules.iter().find(|(k, _)| k == "sc").unwrap();
    let total_len: usize = size.1.parse().unwrap();
    let expected_chunks = total_len.div_ceil(93);
    for i in 0..expected_chunks {
        assert!(rules.iter().any(|(k, _)| *k == format!("sc{i}")), "missing chunk key sc{i}");
    }
    // +1 for the "sc" size key itself
    assert_eq!(rules.len(), expected_chunks + 1);
}

#[test]
fn chunk_keys_are_sequential_for_a_random_payload() {
    let payload = pseudo_random_bytes(500);
    let rules = encode_rules(&payload);
    assert_eq!(rules[0].0, "sc");
    let total_len: usize = rules[0].1.parse().unwrap();
    let expected_chunks = total_len.div_ceil(93);
    assert!(expected_chunks > 1);
    for i in 0..expected_chunks {
        assert!(rules.iter().any(|(k, _)| *k == format!("sc{i}")), "missing chunk key sc{i}");
    }
    // +1 for the "sc" size key itself
    assert_eq!(rules.len(), expected_chunks + 1);
    // Every chunk but the last holds 93 bytes: 124 base64 characters.
    assert_eq!(rules[1].1.len(), 124);
}

#[test]
fn decode_missing_sc_key() {
    let rules = Vec::new();
    assert!(matches!(decode_rules(&rules), Err(ServerDataError::MissingSizeKey)));
}

#[test]
fn decode_invalid_sc_value() {
    let rules = rules_of(&[("sc", "not_a_number")]);
    assert!(matches!(decode_rules(&rules), Err(ServerDataError::InvalidSizeValue)));
}

#[test]
fn decode_missing_chunk_key() {
    let rules = rules_of(&[("sc", "100")]);
    // "sc0" is missing
    assert!(matches!(decode_rules(&rules), Err(ServerDataError::MissingChunkKey(_))));
    assert_eq!(decode_rules(&rules), Err(ServerDataError::MissingChunkKey("sc0".to_string())));
}

#[test]
fn decode_bad_base64() {
    let rules = rules_of(&[("sc", "3"), ("sc0", "!!!")]);
    assert_eq!(decode_rules(&rules), Err(ServerDataError::Base64));
}

#[test]
fn decode_not_gzip() {
    // "AQIDBAUG" is the base64 of 1, 2, 3, 4, 5, 6.
    let rules = rules_of(&[("sc", "6"), ("sc0", "AQIDBAUG")]);
    assert_eq!(decode_rules(&rules), Err(ServerDataError::Decompression(CompressionError::InvalidGzip)));
}

#[test]
fn chunk_past_the_size_is_not_defined() {
    let rules = rules_of(&[("sc", "2"), ("sc0", "AQIDBAUG")]);
    assert!(!decode_rules_defined(&rules));
}

#[test]
fn first_rule_with_a_key_wins() {
    let payload = pseudo_random_bytes(10);
    let mut rules = encode_rules(&payload);
    rules.push(("sc".to_string(), "0".to_string()));
    assert_eq!(decode_rules(&rules).unwrap(), payload);
}

#[test]
fn try_decode_rules_is_none_where_undefined() {
    let rules = rules_of(&[("sc", "2"), ("sc0", "AQIDBAUG")]);
    assert_eq!(try_decode_rules(&rules), None);
    let payload = pseudo_random_bytes(300);
    assert_eq!(try_decode_rules(&encode_rules(&payload)), Some(Ok(payload)));
    assert_eq!(try_decode_rules(&rules_of(&[])), Some(Err(ServerDataError::MissingSizeKey)));
}

#[test]
fn rules_carry_the_chunks_of_the_compressed_payload() {
    let payload = pseudo_random_bytes(400);
    let c = compress(&payload);
    let n = c.len();
    let k = n.div_ceil(93);
    let rules = encode_rules(&payload);
    assert_eq!(rules.len(), k + 1);
    assert_eq!(rules[0], ("sc".to_string(), n.to_string()));
    for i in 0..k {
        assert_eq!(rules[i + 1].0, format!("sc{i}"));
        let chunk = base64::engine::general_purpose::STANDARD.decode(&rules[i + 1].1).unwrap();
        assert_eq!(chunk, c[93 * i..std::cmp::min(93 * (i + 1), n)].to_vec());
    }
}
