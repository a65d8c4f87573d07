//! RIPEMD-160 digests.

use claudeth::crypto::ripemd160::ripemd160;

#[test]
fn test_ripemd160_empty() {
    let digest = ripemd160(b"");
    let expected = [
        0x9c, 0x11, 0x85, 0xa5, 0xc5, 0xe9, 0xfc, 0x54, 0x61, 0x28, 0x08, 0x97, 0x7e, 0xe8, 0xf5,
        0x48, 0xb2, 0x25, 0x8d, 0x31,
    ];
    assert_eq!(digest, expected);
}

#[test]
fn test_ripemd160_abc() {
    let digest = ripemd160(b"abc");
    let expected = [
        0x8e, 0xb2, 0x08, 0xf7, 0xe0, 0x5d, 0x98, 0x7a, 0x9b, 0x04, 0x4a, 0x8e, 0x98, 0xc6, 0xb0,
        0x87, 0xf1, 0x5a, 0x0b, 0xfc,
    ];
    assert_eq!(digest, expected);
}

#[test]
fn ripemd160_two_padding_blocks() {
    // 56 bytes leave no room for the length: the padding takes a second block.
    let digest = ripemd160(b"abcdbcdecdefdefgefghfghighijhijkijkljklmklmnlmnomnopnopq");
    let expected = [
        0x12, 0xa0, 0x53, 0x38, 0x4a, 0x9c, 0x0c, 0x88, 0xe4, 0x05, 0xa0, 0x6c, 0x27, 0xdc, 0xf4,
        0x9a, 0xda, 0x62, 0xeb, 0x2b,
    ];
    assert_eq!(digest, expected);
}

#[test]
fn ripemd160_message_digest() {
    let digest = ripemd160(b"message digest");
    let expected = [
        0x5d, 0x06, 0x89, 0xef, 0x49, 0xd2, 0xfa, 0xe5, 0x72, 0xb8, 0x81, 0xb1, 0x23, 0xa8, 0x5f,
        0xfa, 0x21, 0x59, 0x5f, 0x36,
    ];
    assert_eq!(digest, expected);
}

#[test]
fn ripemd160_over_one_block() {
    // 80 bytes: one full block, then the rest padded.
    let data = [b'1', b'2', b'3', b'4', b'5', b'6', b'7', b'8', b'9', b'0'].repeat(8);
    let digest = ripemd160(&data);
    let expected = [
        0x9b, 0x75, 0x2e, 0x45, 0x57, 0x3d, 0x4b, 0x39, 0xf4, 0xdb, 0xd3, 0x32, 0x3c, 0xab, 0x82,
        0xbf, 0x63, 0x32, 0x6b, 0xfb,
    ];
    assert_eq!(digest, expected);
}
