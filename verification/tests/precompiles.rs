//! Precompiled contracts: outputs, gas and failures.

use claudeth::evm::gas::{
    GAS_BLAKE2F_ROUND, GAS_BN256_ADD, GAS_BN256_MUL, GAS_ECRECOVER, GAS_IDENTITY_BASE,
    GAS_IDENTITY_WORD, GAS_MODEXP_BASE, GAS_RIPEMD160_BASE, GAS_RIPEMD160_WORD, GAS_SHA256_BASE,
    GAS_SHA256_WORD,
};
use claudeth::evm::precompiles::{execute_precompile, PrecompileError, PrecompileResult};
use claudeth::types::{Address, U256};

const BN254_P: [u8; 32] = [
    0x30, 0x64, 0x4e, 0x72, 0xe1, 0x31, 0xa0, 0x29, 0xb8, 0x50, 0x45, 0xb6, 0x81, 0x81, 0x58, 0x5d,
    0x97, 0x81, 0x6a, 0x91, 0x68, 0x71, 0xca, 0x8d, 0x3c, 0x20, 0x8c, 0x16, 0xd8, 0x7c, 0xfd, 0x47,
];

/// Bytes of a hex string (whitespace ignored).
fn hex(s: &str) -> Result<Vec<u8>, String> {
    let digits: Vec<u8> = s.bytes().filter(|c| !c.is_ascii_whitespace()).collect();
    if digits.len() % 2 != 0 {
        return Err("odd length".to_string());
    }
    let value = |c: u8| -> Result<u8, String> {
        match c {
            b'0'..=b'9' => Ok(c - b'0'),
            b'a'..=b'f' => Ok(c - b'a' + 10),
            b'A'..=b'F' => Ok(c - b'A' + 10),
            _ => Err("not a hex digit".to_string()),
        }
    };
    digits.chunks(2).map(|p| Ok(value(p[0])? * 16 + value(p[1])?)).collect()
}

fn execute_precompile_ok(address: &Address, input: &[u8]) -> PrecompileResult {
    execute_precompile(address, input, u64::MAX)
        .expect("precompile result")
        .expect("enough gas")
}

fn bn254_point(x: U256, y: U256) -> Vec<u8> {
    let mut out = vec![0u8; 64];
    out[..32].copy_from_slice(&x.to_be_bytes());
    out[32..].copy_from_slice(&y.to_be_bytes());
    out
}

fn blake2_reference_input(rounds: u32, final_block_flag: u8) -> Vec<u8> {
    // These vectors come from execution-spec EIP-152 tests and are used to
    // validate byte-level compatibility with canonical fixtures.
    let h = hex(
        "48c9bdf267e6096a3ba7ca8485ae67bb2bf894fe72f36e3cf1361d5f3af54fa5\
         d182e6ad7f520e511f6c3e2b8c68059b6bbd41fbabd9831f79217e1319cde05b",
    )
    .expect("valid state vector");
    let m = {
        let mut message = vec![0u8; 128];
        message[..3].copy_from_slice(b"abc");
        message
    };

    let mut input = Vec::with_capacity(213);
    input.extend_from_slice(&rounds.to_be_bytes());
    input.extend_from_slice(&h);
    input.extend_from_slice(&m);
    input.extend_from_slice(&3u64.to_le_bytes());
    input.extend_from_slice(&0u64.to_le_bytes());
    input.push(final_block_flag);
    input
}

fn modexp_input(base: &[u8], exponent: &[u8], modulus: &[u8]) -> Vec<u8> {
    let mut input = Vec::with_capacity(96 + base.len() + exponent.len() + modulus.len());
    input.extend_from_slice(&U256::from_u64(base.len() as u64).to_be_bytes());
    input.extend_from_slice(&U256::from_u64(exponent.len() as u64).to_be_bytes());
    input.extend_from_slice(&U256::from_u64(modulus.len() as u64).to_be_bytes());
    input.extend_from_slice(base);
    input.extend_from_slice(exponent);
    input.extend_from_slice(modulus);
    input
}

fn precompile_address(id: u8) -> Address {
    let mut bytes = [0u8; 20];
    bytes[19] = id;
    Address::from(bytes)
}

#[test]
fn test_identity_precompile_output_and_gas() {
    let input = vec![0x01, 0x02, 0x03];
    let addr = precompile_address(4);
    let result = execute_precompile_ok(&addr, &input);
    assert_eq!(result.output, input);
    assert_eq!(result.gas_used, GAS_IDENTITY_BASE + GAS_IDENTITY_WORD);
}

#[test]
fn test_ecrecover_precompile_invalid_v_returns_empty() {
    let input = vec![0u8; 128];
    let addr = precompile_address(1);
    let result = execute_precompile_ok(&addr, &input);
    assert!(result.output.is_empty());
    assert_eq!(result.gas_used, GAS_ECRECOVER);
}

#[test]
fn test_sha256_precompile_output_and_gas() {
    let input = b"abc".to_vec();
    let addr = precompile_address(2);
    let result = execute_precompile_ok(&addr, &input);
    let expected = vec![
        0xba, 0x78, 0x16, 0xbf, 0x8f, 0x01, 0xcf, 0xea, 0x41, 0x41, 0x40, 0xde, 0x5d, 0xae,
        0x22, 0x23, 0xb0, 0x03, 0x61, 0xa3, 0x96, 0x17, 0x7a, 0x9c, 0xb4, 0x10, 0xff, 0x61,
        0xf2, 0x00, 0x15, 0xad,
    ];
    assert_eq!(result.output, expected);
    assert_eq!(result.gas_used, GAS_SHA256_BASE + GAS_SHA256_WORD);
}

#[test]
fn test_ripemd160_precompile_output_and_gas() {
    let input = b"abc".to_vec();
    let addr = precompile_address(3);
    let result = execute_precompile_ok(&addr, &input);
    let expected = vec![
        0x00, 0x00, 0x00, 0x00, 0x00, 0x00, 0x00, 0x00, 0x00, 0x00, 0x00, 0x00, 0x8e, 0xb2,
        0x08, 0xf7, 0xe0, 0x5d, 0x98, 0x7a, 0x9b, 0x04, 0x4a, 0x8e, 0x98, 0xc6, 0xb0, 0x87,
        0xf1, 0x5a, 0x0b, 0xfc,
    ];
    assert_eq!(result.output, expected);
    assert_eq!(result.gas_used, GAS_RIPEMD160_BASE + GAS_RIPEMD160_WORD);
}

#[test]
fn test_modexp_precompile_basic() {
    // 2^5 mod 13 = 6, return length is modulus length (1 byte).
    let input = modexp_input(&[0x02], &[0x05], &[0x0d]);
    let addr = precompile_address(5);
    let result = execute_precompile_ok(&addr, &input);

    assert_eq!(result.output, vec![0x06]);
    assert_eq!(result.gas_used, GAS_MODEXP_BASE);
}

#[test]
fn test_modexp_precompile_modulus_zero_returns_zeros() {
    let input = modexp_input(&[0x02], &[0x05], &[0x00, 0x00]);
    let addr = precompile_address(5);
    let result = execute_precompile_ok(&addr, &input);

    assert_eq!(result.output, vec![0x00, 0x00]);
}

#[test]
fn test_modexp_precompile_zero_lengths_returns_empty() {
    let mut input = vec![0u8; 96];
    input.extend_from_slice(&[0xaa, 0xbb, 0xcc]);

    let addr = precompile_address(5);
    let result = execute_precompile_ok(&addr, &input);

    assert!(result.output.is_empty());
    assert_eq!(result.gas_used, GAS_MODEXP_BASE);
}

#[test]
fn test_modexp_precompile_oog() {
    // 256-byte base/modulus produces gas above 200 for exponent=1.
    let base = vec![0x01; 256];
    let exp = vec![0x01];
    let modulus = vec![0x03; 256];
    let input = modexp_input(&base, &exp, &modulus);

    let addr = precompile_address(5);
    let result = execute_precompile(&addr, &input, 300).expect("precompile exists");
    assert_eq!(result, Err(PrecompileError::OutOfGas));
}

#[test]
fn test_ecadd_precompile_adds_two_points() {
    let addr = precompile_address(6);
    let one_two = bn254_point(U256::from_u64(1), U256::from_u64(2));
    let mut input = Vec::new();
    input.extend_from_slice(&one_two);
    input.extend_from_slice(&one_two);

    let result = execute_precompile_ok(&addr, &input);
    assert_eq!(result.gas_used, GAS_BN256_ADD);
    assert_eq!(
        result.output,
        bn254_point(
            U256::from_be_bytes([
                0x03, 0x06, 0x44, 0xe7, 0x2e, 0x13, 0x1a, 0x02, 0x9b, 0x85, 0x04, 0x5b, 0x68,
                0x18, 0x15, 0x85, 0xd9, 0x78, 0x16, 0xa9, 0x16, 0x87, 0x1c, 0xa8, 0xd3, 0xc2,
                0x08, 0xc1, 0x6d, 0x87, 0xcf, 0xd3,
            ]),
            U256::from_be_bytes([
                0x15, 0xed, 0x73, 0x8c, 0x0e, 0x0a, 0x7c, 0x92, 0xe7, 0x84, 0x5f, 0x96, 0xb2,
                0xae, 0x9c, 0x0a, 0x68, 0xa6, 0xa4, 0x49, 0xe3, 0x53, 0x8f, 0xc7, 0xff, 0x3e,
                0xbf, 0x7a, 0x5a, 0x18, 0xa2, 0xc4,
            ]),
        )
    );
}

#[test]
fn test_ecadd_precompile_matches_eip196_vector_p1_plus_q1() {
    let addr = precompile_address(6);
    let p1 = bn254_point(
        U256::from_be_bytes([
            0x17, 0xc1, 0x39, 0xdf, 0x0e, 0xfe, 0xe0, 0xf7, 0x66, 0xbc, 0x02, 0x04, 0x76, 0x2b,
            0x77, 0x43, 0x62, 0xe4, 0xde, 0xd8, 0x89, 0x53, 0xa3, 0x9c, 0xe8, 0x49, 0xa8, 0xa7,
            0xfa, 0x16, 0x3f, 0xa9,
        ]),
        U256::from_be_bytes([
            0x01, 0xe0, 0x55, 0x9b, 0xac, 0xb1, 0x60, 0x66, 0x47, 0x64, 0xa3, 0x57, 0xaf, 0x8a,
            0x9f, 0xe7, 0x0b, 0xaa, 0x92, 0x58, 0xe0, 0xb9, 0x59, 0x27, 0x3f, 0xfc, 0x57, 0x18,
            0xc6, 0xd4, 0xcc, 0x7c,
        ]),
    );
    let q1 = bn254_point(
        U256::from_be_bytes([
            0x03, 0x97, 0x30, 0xea, 0x8d, 0xff, 0x12, 0x54, 0xc0, 0xfe, 0xe9, 0xc0, 0xea, 0x77,
            0x7d, 0x29, 0xa9, 0xc7, 0x10, 0xb7, 0xe6, 0x16, 0x68, 0x3f, 0x19, 0x4f, 0x18, 0xc4,
            0x3b, 0x43, 0xb8, 0x69,
        ]),
        U256::from_be_bytes([
            0x07, 0x3a, 0x5f, 0xfc, 0xc6, 0xfc, 0x7a, 0x28, 0xc3, 0x07, 0x23, 0xd6, 0xe5, 0x8c,
            0xe5, 0x77, 0x35, 0x69, 0x82, 0xd6, 0x5b, 0x83, 0x3a, 0x5a, 0x5c, 0x15, 0xbf, 0x90,
            0x24, 0xb4, 0x3d, 0x98,
        ]),
    );

    let mut input = Vec::new();
    input.extend_from_slice(&p1);
    input.extend_from_slice(&q1);

    let result = execute_precompile_ok(&addr, &input);
    assert_eq!(result.gas_used, GAS_BN256_ADD);
    assert_eq!(
        result.output,
        bn254_point(
            U256::from_be_bytes([
                0x15, 0xbf, 0x2b, 0xb1, 0x78, 0x80, 0x14, 0x4b, 0x5d, 0x1c, 0xd2, 0xb1, 0xf4,
                0x6e, 0xff, 0x9d, 0x61, 0x7b, 0xff, 0xd1, 0xca, 0x57, 0xc3, 0x7f, 0xb5, 0xa4,
                0x9b, 0xd8, 0x4e, 0x53, 0xcf, 0x66,
            ]),
            U256::from_be_bytes([
                0x04, 0x9c, 0x79, 0x7f, 0x9c, 0xe0, 0xd1, 0x70, 0x83, 0xde, 0xb3, 0x2b, 0x5e,
                0x36, 0xf2, 0xea, 0x2a, 0x21, 0x2e, 0xe0, 0x36, 0x59, 0x8d, 0xd7, 0x62, 0x4c,
                0x16, 0x89, 0x93, 0xd1, 0x35, 0x5f,
            ]),
        )
    );
}

#[test]
fn test_ecadd_precompile_zero_pads_short_input() {
    let addr = precompile_address(6);
    // Only one point is provided, so the second point is interpreted as infinity.
    let input = bn254_point(U256::from_u64(1), U256::from_u64(2));

    let result = execute_precompile_ok(&addr, &input);
    assert_eq!(result.gas_used, GAS_BN256_ADD);
    assert_eq!(
        result.output,
        bn254_point(U256::from_u64(1), U256::from_u64(2))
    );
}

#[test]
fn test_ecadd_precompile_invalid_field_element_fails() {
    let addr = precompile_address(6);
    let mut invalid_point = vec![0u8; 64];
    invalid_point[..32].copy_from_slice(&U256::from_be_bytes(BN254_P).to_be_bytes());

    let mut input = Vec::new();
    input.extend_from_slice(&invalid_point);
    input.extend_from_slice(&bn254_point(U256::zero(), U256::zero()));

    let result = execute_precompile(&addr, &input, GAS_BN256_ADD).expect("precompile exists");
    assert_eq!(result, Err(PrecompileError::OutOfGas));
}

#[test]
fn test_ecadd_precompile_invalid_curve_point_fails() {
    let addr = precompile_address(6);
    let invalid_point = bn254_point(U256::from_u64(1), U256::from_u64(3));

    let mut input = Vec::new();
    input.extend_from_slice(&invalid_point);
    input.extend_from_slice(&bn254_point(U256::zero(), U256::zero()));

    let result = execute_precompile(&addr, &input, GAS_BN256_ADD).expect("precompile exists");
    assert_eq!(result, Err(PrecompileError::OutOfGas));
}

#[test]
fn test_ecadd_precompile_oog() {
    let addr = precompile_address(6);
    let mut input = Vec::new();
    input.extend_from_slice(&bn254_point(U256::from_u64(1), U256::from_u64(2)));
    input.extend_from_slice(&bn254_point(U256::zero(), U256::zero()));

    let result =
        execute_precompile(&addr, &input, GAS_BN256_ADD - 1).expect("precompile exists");
    assert_eq!(result, Err(PrecompileError::OutOfGas));
}

#[test]
fn test_ecmul_precompile_scalar_zero_returns_infinity() {
    let addr = precompile_address(7);
    let mut input = Vec::new();
    input.extend_from_slice(&bn254_point(U256::from_u64(1), U256::from_u64(2)));
    input.extend_from_slice(&U256::zero().to_be_bytes());

    let result = execute_precompile_ok(&addr, &input);
    assert_eq!(result.gas_used, GAS_BN256_MUL);
    assert_eq!(result.output, vec![0u8; 64]);
}

#[test]
fn test_ecmul_precompile_scalar_one_returns_same_point() {
    let addr = precompile_address(7);
    let point = bn254_point(U256::from_u64(1), U256::from_u64(2));
    let mut input = Vec::new();
    input.extend_from_slice(&point);
    input.extend_from_slice(&U256::one().to_be_bytes());

    let result = execute_precompile_ok(&addr, &input);
    assert_eq!(result.gas_used, GAS_BN256_MUL);
    assert_eq!(result.output, point);
}

#[test]
fn test_ecmul_precompile_scalar_two_matches_eip196_vector_g1x2() {
    let addr = precompile_address(7);
    let mut input = Vec::new();
    input.extend_from_slice(&bn254_point(U256::from_u64(1), U256::from_u64(2)));
    input.extend_from_slice(&U256::from_u64(2).to_be_bytes());

    let result = execute_precompile_ok(&addr, &input);
    assert_eq!(result.gas_used, GAS_BN256_MUL);
    assert_eq!(
        result.output,
        bn254_point(
            U256::from_be_bytes([
                0x03, 0x06, 0x44, 0xe7, 0x2e, 0x13, 0x1a, 0x02, 0x9b, 0x85, 0x04, 0x5b, 0x68,
                0x18, 0x15, 0x85, 0xd9, 0x78, 0x16, 0xa9, 0x16, 0x87, 0x1c, 0xa8, 0xd3, 0xc2,
                0x08, 0xc1, 0x6d, 0x87, 0xcf, 0xd3,
            ]),
            U256::from_be_bytes([
                0x15, 0xed, 0x73, 0x8c, 0x0e, 0x0a, 0x7c, 0x92, 0xe7, 0x84, 0x5f, 0x96, 0xb2,
                0xae, 0x9c, 0x0a, 0x68, 0xa6, 0xa4, 0x49, 0xe3, 0x53, 0x8f, 0xc7, 0xff, 0x3e,
                0xbf, 0x7a, 0x5a, 0x18, 0xa2, 0xc4,
            ]),
        )
    );
}

#[test]
fn test_ecmul_precompile_zero_pads_missing_scalar_as_zero() {
    let addr = precompile_address(7);
    // Only the point is provided, so the scalar decodes as zero.
    let input = bn254_point(U256::from_u64(1), U256::from_u64(2));

    let result = execute_precompile_ok(&addr, &input);
    assert_eq!(result.gas_used, GAS_BN256_MUL);
    assert_eq!(result.output, vec![0u8; 64]);
}

#[test]
fn test_ecmul_precompile_invalid_field_element_fails() {
    let addr = precompile_address(7);
    let mut invalid_point = vec![0u8; 64];
    invalid_point[..32].copy_from_slice(&U256::from_be_bytes(BN254_P).to_be_bytes());

    let mut input = Vec::new();
    input.extend_from_slice(&invalid_point);
    input.extend_from_slice(&U256::one().to_be_bytes());

    let result = execute_precompile(&addr, &input, GAS_BN256_MUL).expect("precompile exists");
    assert_eq!(result, Err(PrecompileError::OutOfGas));
}

#[test]
fn test_ecmul_precompile_invalid_curve_point_fails() {
    let addr = precompile_address(7);
    let mut input = Vec::new();
    input.extend_from_slice(&bn254_point(U256::from_u64(1), U256::from_u64(3)));
    input.extend_from_slice(&U256::from_u64(2).to_be_bytes());

    let result = execute_precompile(&addr, &input, GAS_BN256_MUL).expect("precompile exists");
    assert_eq!(result, Err(PrecompileError::OutOfGas));
}

#[test]
fn test_ecmul_precompile_oog() {
    let addr = precompile_address(7);
    let mut input = Vec::new();
    input.extend_from_slice(&bn254_point(U256::from_u64(1), U256::from_u64(2)));
    input.extend_from_slice(&U256::one().to_be_bytes());

    let result =
        execute_precompile(&addr, &input, GAS_BN256_MUL - 1).expect("precompile exists");
    assert_eq!(result, Err(PrecompileError::OutOfGas));
}

#[test]
fn test_blake2f_precompile_vector_rounds_zero() {
    let addr = precompile_address(9);
    let input = blake2_reference_input(0, 1);
    let result = execute_precompile_ok(&addr, &input);

    let expected = hex(
        "08c9bcf367e6096a3ba7ca8485ae67bb2bf894fe72f36e3cf1361d5f3af54fa5\
         d282e6ad7f520e511f6c3e2b8c68059b9442be0454267ce079217e1319cde05b",
    )
    .expect("valid hex");
    assert_eq!(result.output, expected);
    assert_eq!(result.gas_used, 0);
}

#[test]
fn test_blake2f_precompile_vector_rounds_twelve() {
    let addr = precompile_address(9);
    let input = blake2_reference_input(12, 1);
    let result = execute_precompile_ok(&addr, &input);

    let expected = hex(
        "ba80a53f981c4d0d6a2797b69f12f6e94c212f14685ac4b74b12bb6fdbffa2d1\
         7d87c5392aab792dc252d5de4533cc9518d38aa8dbf1925ab92386edd4009923",
    )
    .expect("valid hex");
    assert_eq!(result.output, expected);
    assert_eq!(result.gas_used, 12 * GAS_BLAKE2F_ROUND);
}

#[test]
fn test_blake2f_precompile_invalid_length_fails() {
    let addr = precompile_address(9);
    let input = vec![0u8; 212];
    let result = execute_precompile(&addr, &input, u64::MAX).expect("precompile exists");
    assert_eq!(result, Err(PrecompileError::OutOfGas));
}

#[test]
fn test_blake2f_precompile_invalid_final_flag_fails() {
    let addr = precompile_address(9);
    let input = blake2_reference_input(12, 2);
    let result = execute_precompile(&addr, &input, u64::MAX).expect("precompile exists");
    assert_eq!(result, Err(PrecompileError::OutOfGas));
}

#[test]
fn test_blake2f_precompile_oog() {
    let addr = precompile_address(9);
    let input = blake2_reference_input(u32::MAX, 1);
    let result = execute_precompile(&addr, &input, GAS_BLAKE2F_ROUND - 1)
        .expect("precompile exists");
    assert_eq!(result, Err(PrecompileError::OutOfGas));
}

#[test]
fn unknown_addresses_are_not_precompiles() {
    assert!(execute_precompile(&precompile_address(0), &[], u64::MAX).is_none());
    assert!(execute_precompile(&precompile_address(8), &[], u64::MAX).is_none());
    assert!(execute_precompile(&precompile_address(10), &[], u64::MAX).is_none());
    let mut bytes = [0u8; 20];
    bytes[0] = 1;
    bytes[19] = 1;
    assert!(execute_precompile(&Address::new(bytes), &[], u64::MAX).is_none());
}

#[test]
fn identity_out_of_gas() {
    let input = vec![0x01; 33];
    // 15 + 3 · 2 = 21 gas needed
    let result = execute_precompile(&precompile_address(4), &input, 20).unwrap();
    assert_eq!(result, Err(PrecompileError::OutOfGas));
    let result = execute_precompile(&precompile_address(4), &input, 21).unwrap().unwrap();
    assert_eq!(result.gas_used, 21);
}

#[test]
fn sha256_of_empty_input() {
    let result = execute_precompile_ok(&precompile_address(2), &[]);
    assert_eq!(
        result.output,
        hex("e3b0c44298fc1c149afbf4c8996fb92427ae41e4649b934ca495991b7852b855").unwrap()
    );
    assert_eq!(result.gas_used, GAS_SHA256_BASE);
}

#[test]
fn sha256_two_blocks() {
    let input = b"abcdbcdecdefdefgefghfghighijhijkijkljklmklmnlmnomnopnopq";
    let result = execute_precompile_ok(&precompile_address(2), input);
    assert_eq!(
        result.output,
        hex("248d6a61d20638b8e5c026930c3e6039a33ce45964ff2167f6ecedd419db06c1").unwrap()
    );
}

#[test]
fn modexp_multi_byte_operands() {
    // 0x0102 ^ 0x03 mod 0x1001 = 2985 = 0x0ba9
    let input = modexp_input(&[0x01, 0x02], &[0x03], &[0x10, 0x01]);
    let result = execute_precompile_ok(&precompile_address(5), &input);
    assert_eq!(result.output, vec![0x0b, 0xa9]);
}

#[test]
fn modexp_zero_exponent_is_one() {
    let input = modexp_input(&[0x07], &[], &[0x00, 0x05]);
    let result = execute_precompile_ok(&precompile_address(5), &input);
    assert_eq!(result.output, vec![0x00, 0x01]);
}

#[test]
fn modexp_modulus_one_is_zero() {
    let input = modexp_input(&[0x07], &[0x02], &[0x01]);
    let result = execute_precompile_ok(&precompile_address(5), &input);
    assert_eq!(result.output, vec![0x00]);
}

#[test]
fn ecrecover_recovers_known_signer() {
    let mut input = hex("e59afdcdda4cc4d8a52e64ecb282b1fcce9a55cd14fd33e48921dc9ebad6eb0b").unwrap();
    let mut v = [0u8; 32];
    v[31] = 28;
    input.extend_from_slice(&v);
    input.extend_from_slice(
        &hex("f41a0c71d4d32cd700b1ed3060dbdec6d0fe766a193d3932a3975b37c48085f1").unwrap(),
    );
    input.extend_from_slice(
        &hex("6aab53e4635a05ba30e1618087952d88f3b38549d0dfb78d9c744792c61a78f7").unwrap(),
    );
    let result = execute_precompile_ok(&precompile_address(1), &input);
    let mut expected = vec![0u8; 12];
    expected.extend_from_slice(&hex("7e5f4552091a69125d5dfcb7b8c2659029395bdf").unwrap());
    assert_eq!(result.output, expected);
    assert_eq!(result.gas_used, GAS_ECRECOVER);
}

