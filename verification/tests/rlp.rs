use claudeth::crypto::rlp::{decode_address, decode_byte, decode_bytes, decode_hash, decode_list, decode_u256, decode_u512, decode_u64, encode_address, encode_byte, encode_bytes, encode_hash, encode_length, encode_list, encode_u256, encode_u512, encode_u64, RlpError};
use claudeth::types::{Address, U256, U512};

#[test]
fn test_encode_byte_small() {
    assert_eq!(encode_byte(0x00), vec![0x00]);
    assert_eq!(encode_byte(0x7f), vec![0x7f]);
}

#[test]
fn test_encode_byte_large() {
    assert_eq!(encode_byte(0x80), vec![0x81, 0x80]);
    assert_eq!(encode_byte(0xff), vec![0x81, 0xff]);
}

#[test]
fn test_decode_byte_small() {
    assert_eq!(decode_byte(&[0x00]).unwrap(), (0x00, &[][..]));
    assert_eq!(decode_byte(&[0x7f]).unwrap(), (0x7f, &[][..]));
}

#[test]
fn test_decode_byte_large() {
    assert_eq!(decode_byte(&[0x81, 0x80]).unwrap(), (0x80, &[][..]));
    assert_eq!(decode_byte(&[0x81, 0xff]).unwrap(), (0xff, &[][..]));
}

#[test]
fn test_byte_roundtrip() {
    for byte in 0u8..=255 {
        let encoded = encode_byte(byte);
        let (decoded, rest) = decode_byte(&encoded).unwrap();
        assert_eq!(decoded, byte);
        assert!(rest.is_empty());
    }
}

#[test]
fn test_encode_empty_bytes() {
    assert_eq!(encode_bytes(&[]), vec![0x80]);
}

#[test]
fn test_encode_single_byte_bytes() {
    assert_eq!(encode_bytes(&[0x00]), vec![0x00]);
    assert_eq!(encode_bytes(&[0x7f]), vec![0x7f]);
    assert_eq!(encode_bytes(&[0x80]), vec![0x81, 0x80]);
}

#[test]
fn test_encode_short_bytes() {
    assert_eq!(encode_bytes(&[0x01, 0x02, 0x03]), vec![0x83, 0x01, 0x02, 0x03]);
}

#[test]
fn test_encode_55_bytes() {
    let bytes = vec![0x42; 55];
    let mut expected = vec![0x80 + 55];
    expected.extend(&bytes);
    assert_eq!(encode_bytes(&bytes), expected);
}

#[test]
fn test_encode_56_bytes() {
    let bytes = vec![0x42; 56];
    let mut expected = vec![0xb8, 56]; // 0xb7 + 1, then length
    expected.extend(&bytes);
    assert_eq!(encode_bytes(&bytes), expected);
}

#[test]
fn test_encode_long_bytes() {
    let bytes = vec![0x42; 1024];
    let mut expected = vec![0xb9, 0x04, 0x00]; // 0xb7 + 2, then length (0x0400 = 1024)
    expected.extend(&bytes);
    assert_eq!(encode_bytes(&bytes), expected);
}

#[test]
fn test_decode_empty_bytes() {
    assert_eq!(decode_bytes(&[0x80]).unwrap(), (vec![], &[][..]));
}

#[test]
fn test_decode_single_byte_bytes() {
    assert_eq!(decode_bytes(&[0x00]).unwrap(), (vec![0x00], &[][..]));
    assert_eq!(decode_bytes(&[0x7f]).unwrap(), (vec![0x7f], &[][..]));
    assert_eq!(decode_bytes(&[0x81, 0x80]).unwrap(), (vec![0x80], &[][..]));
}

#[test]
fn test_decode_short_bytes() {
    assert_eq!(
        decode_bytes(&[0x83, 0x01, 0x02, 0x03]).unwrap(),
        (vec![0x01, 0x02, 0x03], &[][..])
    );
}

#[test]
fn test_decode_long_bytes() {
    let bytes = vec![0x42; 1024];
    let mut encoded = vec![0xb9, 0x04, 0x00];
    encoded.extend(&bytes);
    assert_eq!(decode_bytes(&encoded).unwrap(), (bytes, &[][..]));
}

#[test]
fn test_bytes_roundtrip() {
    let test_cases = vec![
        vec![],
        vec![0x00],
        vec![0x7f],
        vec![0x80],
        vec![0x01, 0x02, 0x03],
        vec![0x42; 55],
        vec![0x42; 56],
        vec![0x42; 1024],
    ];

    for bytes in test_cases {
        let encoded = encode_bytes(&bytes);
        let (decoded, rest) = decode_bytes(&encoded).unwrap();
        assert_eq!(decoded, bytes);
        assert!(rest.is_empty());
    }
}

#[test]
fn test_encode_u64_zero() {
    assert_eq!(encode_u64(0), vec![0x80]);
}

#[test]
fn test_encode_u64_small() {
    assert_eq!(encode_u64(1), vec![0x01]);
    assert_eq!(encode_u64(127), vec![0x7f]);
    assert_eq!(encode_u64(128), vec![0x81, 0x80]);
}

#[test]
fn test_encode_u64_medium() {
    assert_eq!(encode_u64(256), vec![0x82, 0x01, 0x00]);
    assert_eq!(encode_u64(1024), vec![0x82, 0x04, 0x00]);
}

#[test]
fn test_encode_u64_large() {
    assert_eq!(
        encode_u64(0x0102030405060708),
        vec![0x88, 0x01, 0x02, 0x03, 0x04, 0x05, 0x06, 0x07, 0x08]
    );
}

#[test]
fn test_decode_u64_zero() {
    assert_eq!(decode_u64(&[0x80]).unwrap(), (0, &[][..]));
}

#[test]
fn test_decode_u64_small() {
    assert_eq!(decode_u64(&[0x01]).unwrap(), (1, &[][..]));
    assert_eq!(decode_u64(&[0x7f]).unwrap(), (127, &[][..]));
    assert_eq!(decode_u64(&[0x81, 0x80]).unwrap(), (128, &[][..]));
}

#[test]
fn test_u64_roundtrip() {
    let test_cases = vec![0, 1, 127, 128, 256, 1024, 0x0102030405060708, u64::MAX];

    for value in test_cases {
        let encoded = encode_u64(value);
        let (decoded, rest) = decode_u64(&encoded).unwrap();
        assert_eq!(decoded, value);
        assert!(rest.is_empty());
    }
}

#[test]
fn test_encode_u256_zero() {
    assert_eq!(encode_u256(&U256::zero()), vec![0x80]);
}

#[test]
fn test_encode_u256_one() {
    assert_eq!(encode_u256(&U256::one()), vec![0x01]);
}

#[test]
fn test_encode_u256_small() {
    assert_eq!(encode_u256(&U256::from_u64(127)), vec![0x7f]);
    assert_eq!(encode_u256(&U256::from_u64(128)), vec![0x81, 0x80]);
}

#[test]
fn test_u256_roundtrip() {
    let test_cases = vec![
        U256::zero(),
        U256::one(),
        U256::from_u64(127),
        U256::from_u64(128),
        U256::from_u64(256),
        U256::from_u64(u64::MAX),
        U256::from_u128(u128::MAX),
    ];

    for value in test_cases {
        let encoded = encode_u256(&value);
        let (decoded, rest) = decode_u256(&encoded).unwrap();
        assert_eq!(decoded, value);
        assert!(rest.is_empty());
    }
}

#[test]
fn test_encode_u512_zero() {
    assert_eq!(encode_u512(&U512::zero()), vec![0x80]);
}

#[test]
fn test_encode_u512_one() {
    assert_eq!(encode_u512(&U512::from_u256(U256::one())), vec![0x01]);
}

#[test]
fn test_u512_roundtrip() {
    let test_cases = vec![
        U512::zero(),
        U512::from_u256(U256::one()),
        U512::from_u256(U256::from_u64(127)),
        U512::from_u256(U256::from_u64(128)),
        U512::from_u256(U256::from_u64(u64::MAX)),
        U512::from_u256(U256::max_value()),
    ];

    for value in test_cases {
        let encoded = encode_u512(&value);
        let (decoded, rest) = decode_u512(&encoded).unwrap();
        assert_eq!(decoded, value);
        assert!(rest.is_empty());
    }
}

#[test]
fn test_encode_address() {
    let addr = Address::new([0x42; 20]);
    let encoded = encode_address(&addr);
    assert_eq!(encoded[0], 0x80 + 20); // 0x94
    assert_eq!(encoded.len(), 21);
}

#[test]
fn test_address_roundtrip() {
    let test_cases = vec![
        Address::zero(),
        Address::new([0x42; 20]),
        Address::new([0xff; 20]),
    ];

    for addr in test_cases {
        let encoded = encode_address(&addr);
        let (decoded, rest) = decode_address(&encoded).unwrap();
        assert_eq!(decoded, addr);
        assert!(rest.is_empty());
    }
}

#[test]
fn test_encode_hash() {
    let hash = claudeth::types::Hash::new([0x42; 32]);
    let encoded = encode_hash(&hash);
    assert_eq!(encoded[0], 0xa0); // 0x80 + 32
    assert_eq!(encoded.len(), 33);
}

#[test]
fn test_hash_roundtrip() {
    let test_cases = vec![
        claudeth::types::Hash::zero(),
        claudeth::types::Hash::new([0x42; 32]),
        claudeth::types::Hash::new([0xff; 32]),
    ];

    for hash in test_cases {
        let encoded = encode_hash(&hash);
        let (decoded, rest) = decode_hash(&encoded).unwrap();
        assert_eq!(decoded, hash);
        assert!(rest.is_empty());
    }
}

#[test]
fn test_encode_empty_list() {
    assert_eq!(encode_list(&[]), vec![0xc0]);
}

#[test]
fn test_encode_list_single_item() {
    let items = vec![vec![0x01]];
    assert_eq!(encode_list(&items), vec![0xc1, 0x01]);
}

#[test]
fn test_encode_list_multiple_items() {
    let items = vec![vec![0x01], vec![0x02], vec![0x03]];
    assert_eq!(encode_list(&items), vec![0xc3, 0x01, 0x02, 0x03]);
}

#[test]
fn test_encode_nested_list() {
    let inner = vec![vec![0x01], vec![0x02]];
    let inner_encoded = encode_list(&inner);
    let outer = vec![inner_encoded, vec![0x03]];
    assert_eq!(encode_list(&outer), vec![0xc4, 0xc2, 0x01, 0x02, 0x03]);
}

#[test]
fn test_decode_empty_list() {
    assert_eq!(decode_list(&[0xc0]).unwrap(), (vec![], &[][..]));
}

#[test]
fn test_decode_list_single_item() {
    assert_eq!(
        decode_list(&[0xc1, 0x01]).unwrap(),
        (vec![vec![0x01]], &[][..])
    );
}

#[test]
fn test_decode_list_multiple_items() {
    assert_eq!(
        decode_list(&[0xc3, 0x01, 0x02, 0x03]).unwrap(),
        (vec![vec![0x01], vec![0x02], vec![0x03]], &[][..])
    );
}

#[test]
fn test_list_roundtrip() {
    let test_cases = vec![
        vec![],
        vec![vec![0x01]],
        vec![vec![0x01], vec![0x02], vec![0x03]],
        vec![encode_bytes(&[0x01, 0x02]), encode_bytes(&[0x03, 0x04])],
    ];

    for items in test_cases {
        let encoded = encode_list(&items);
        let (decoded, rest) = decode_list(&encoded).unwrap();
        assert_eq!(decoded, items);
        assert!(rest.is_empty());
    }
}

#[test]
fn test_decode_empty_input() {
    assert_eq!(decode_byte(&[]), Err(RlpError::UnexpectedEnd));
    assert_eq!(decode_bytes(&[]), Err(RlpError::UnexpectedEnd));
    assert_eq!(decode_list(&[]), Err(RlpError::UnexpectedEnd));
}

#[test]
fn test_decode_input_too_short() {
    assert_eq!(decode_bytes(&[0x83, 0x01]), Err(RlpError::InputTooShort));
    assert_eq!(decode_list(&[0xc3, 0x01]), Err(RlpError::InputTooShort));
}

#[test]
fn test_decode_non_canonical_single_byte() {
    // Single byte [0x00, 0x7f] should not be encoded with 0x81 prefix
    assert_eq!(decode_bytes(&[0x81, 0x7f]), Err(RlpError::NonCanonical));
}

#[test]
fn test_decode_leading_zero() {
    // Multi-byte length should not have leading zeros
    let mut data = vec![0xb9, 0x00, 0x38];
    data.extend(vec![0x42; 56]);
    assert_eq!(decode_bytes(&data), Err(RlpError::LeadingZero));
}

#[test]
fn test_decode_non_canonical_length() {
    // Length <= 55 should not use long form
    let mut data = vec![0xb8, 55]; // Wrong: should use short form
    data.extend(vec![0x42; 55]);
    assert_eq!(decode_bytes(&data), Err(RlpError::NonCanonical));
}

#[test]
fn test_decode_invalid_address_length() {
    let encoded = encode_bytes(&[0x42; 19]); // Wrong length
    assert_eq!(decode_address(&encoded), Err(RlpError::InvalidLength));
}

#[test]
fn test_decode_invalid_hash_length() {
    let encoded = encode_bytes(&[0x42; 31]); // Wrong length
    assert_eq!(decode_hash(&encoded), Err(RlpError::InvalidLength));
}

#[test]
fn test_ethereum_dog() {
    // "dog" = [0x64, 0x6f, 0x67]
    let encoded = encode_bytes(&[0x64, 0x6f, 0x67]);
    assert_eq!(encoded, vec![0x83, 0x64, 0x6f, 0x67]);
}

#[test]
fn test_ethereum_cat_dog_list() {
    // [ "cat", "dog" ]
    let cat = encode_bytes(&[0x63, 0x61, 0x74]);
    let dog = encode_bytes(&[0x64, 0x6f, 0x67]);
    let encoded = encode_list(&[cat, dog]);
    assert_eq!(encoded, vec![0xc8, 0x83, 0x63, 0x61, 0x74, 0x83, 0x64, 0x6f, 0x67]);
}

#[test]
fn test_ethereum_empty_string() {
    assert_eq!(encode_bytes(&[]), vec![0x80]);
}

#[test]
fn test_ethereum_empty_list() {
    assert_eq!(encode_list(&[]), vec![0xc0]);
}

#[test]
fn test_ethereum_zero() {
    assert_eq!(encode_u64(0), vec![0x80]);
}

#[test]
fn test_ethereum_small_integer() {
    assert_eq!(encode_u64(15), vec![0x0f]);
}

#[test]
fn test_ethereum_medium_integer() {
    assert_eq!(encode_u64(1024), vec![0x82, 0x04, 0x00]);
}

#[test]
#[allow(clippy::cloned_ref_to_slice_refs)]
fn test_ethereum_nested_empty_lists() {
    // [ [], [[]], [ [], [[]] ] ]
    let empty = encode_list(&[]);
    let inner1 = encode_list(&[empty.clone()]);
    let inner2 = encode_list(&[empty.clone(), inner1.clone()]);
    let outer = encode_list(&[empty.clone(), inner1, inner2]);
    assert_eq!(
        outer,
        vec![0xc7, 0xc0, 0xc1, 0xc0, 0xc3, 0xc0, 0xc1, 0xc0]
    );
}

#[test]
fn test_encode_length_boundaries() {
    assert_eq!(encode_length(255), vec![0xff]);
    assert_eq!(encode_length(256), vec![0x01, 0x00]);
    assert_eq!(encode_length(65535), vec![0xff, 0xff]);
    assert_eq!(encode_length(65536), vec![0x01, 0x00, 0x00]);
}

#[test]
fn test_remaining_input() {
    let input = [0x01, 0x02, 0x03];
    let (decoded, rest) = decode_byte(&input).unwrap();
    assert_eq!(decoded, 0x01);
    assert_eq!(rest, &[0x02, 0x03]);
}

#[test]
fn test_decode_bytes_with_remaining() {
    let input = [0x83, 0x01, 0x02, 0x03, 0x04, 0x05];
    let (decoded, rest) = decode_bytes(&input).unwrap();
    assert_eq!(decoded, vec![0x01, 0x02, 0x03]);
    assert_eq!(rest, &[0x04, 0x05]);
}

#[test]
fn test_long_list() {
    // Create a list with 60 bytes total payload (> 55)
    let items: Vec<Vec<u8>> = (0..60).map(|_| vec![0x01]).collect();
    let encoded = encode_list(&items);

    // Should use long form: 0xf7 + len_of_len + len + payload
    assert_eq!(encoded[0], 0xf8); // 0xf7 + 1
    assert_eq!(encoded[1], 60); // length

    let (decoded, rest) = decode_list(&encoded).unwrap();
    assert_eq!(decoded, items);
    assert!(rest.is_empty());
}

#[test]
fn test_u256_max() {
    let value = U256::max_value();
    let encoded = encode_u256(&value);
    let (decoded, rest) = decode_u256(&encoded).unwrap();
    assert_eq!(decoded, value);
    assert!(rest.is_empty());
}

#[test]
fn test_decode_u64_too_large() {
    // 9 bytes is too large for u64
    let encoded = vec![0x89, 0x01, 0x02, 0x03, 0x04, 0x05, 0x06, 0x07, 0x08, 0x09];
    assert_eq!(decode_u64(&encoded), Err(RlpError::InvalidLength));
}

#[test]
fn test_decode_u256_too_large() {
    // 33 bytes is too large for U256
    // Use length 257 (0x0101) to avoid leading zeros
    let mut encoded = vec![0xb9, 0x01, 0x01]; // Length 257 in 2 bytes
    encoded.extend(vec![0x42; 257]);
    assert_eq!(decode_u256(&encoded), Err(RlpError::InvalidLength));
}

#[test]
fn test_decode_u512_too_large() {
    // 65 bytes is too large for U512
    // Use length 257 (0x0101) to avoid leading zeros
    let mut encoded = vec![0xb9, 0x01, 0x01]; // Length 257 in 2 bytes
    encoded.extend(vec![0x42; 257]);
    assert_eq!(decode_u512(&encoded), Err(RlpError::InvalidLength));
}

#[test]
fn test_decode_u64_leading_zero() {
    // Leading zeros are non-canonical
    let encoded = vec![0x82, 0x00, 0x01];
    assert_eq!(decode_u64(&encoded), Err(RlpError::NonCanonical));
}

#[test]
fn test_nested_list_with_bytes() {
    let inner_items = vec![
        encode_bytes(&[0x01, 0x02]),
        encode_u64(42),
    ];
    let inner_list = encode_list(&inner_items);

    let outer_items = vec![
        encode_bytes(&[0xff]),
        inner_list,
        encode_u64(0),
    ];
    let outer_list = encode_list(&outer_items);

    let (decoded, rest) = decode_list(&outer_list).unwrap();
    assert!(rest.is_empty());
    assert_eq!(decoded.len(), 3);
}


/// A decoded string's consumed bytes are exactly its encoding: what decodes
/// from a long-string header re-encodes to the same bytes.
#[test]
fn decoded_bytes_reencode_to_input() {
    let mut input = vec![0xb8, 0x38];
    input.extend_from_slice(&[0xAB; 56]);
    input.push(0x01);
    let (bytes, rest) = decode_bytes(&input).unwrap();
    assert_eq!(rest, &[0x01u8][..]);
    assert_eq!(encode_bytes(&bytes), input[..58].to_vec());
}

/// A list of strings round-trips: each decoded item decodes back to its string.
#[test]
fn string_list_round_trips() {
    let strs: Vec<Vec<u8>> = vec![vec![0x05], vec![0x80], vec![0x11; 60], vec![]];
    let items: Vec<Vec<u8>> = strs.iter().map(|s| encode_bytes(s)).collect();
    let encoded = encode_list(&items);
    let (decoded, rest) = decode_list(&encoded).unwrap();
    assert!(rest.is_empty());
    assert_eq!(decoded.len(), strs.len());
    for (item, s) in decoded.iter().zip(strs.iter()) {
        let (b, tail) = decode_bytes(item).unwrap();
        assert_eq!(&b[..], &s[..]);
        assert!(tail.is_empty());
    }
}
