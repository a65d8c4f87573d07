//! RLP (Recursive Length Prefix) encoding and decoding.
//!
//! 1. A single byte in `[0x00, 0x7f]` encodes as itself.
//! 2. A byte string of 0..=55 bytes: `0x80 + len`, then the bytes.
//! 3. A longer byte string: `0xb7 + len_of_len`, the big-endian length, then the bytes.
//! 4. A list whose payload has 0..=55 bytes: `0xc0 + len`, then the items.
//! 5. A longer list: `0xf7 + len_of_len`, the big-endian length, then the items.
//!
//! Each encoder is stated as the byte sequence it returns; each decoder is stated
//! as a function from the input bytes to the decoded value and the number of
//! bytes consumed, or to the error it reports.

use vstd::prelude::*;
use vstd::arithmetic::power::pow;
use vstd::arithmetic::div_mod::*;
use crate::types::{U256, U512, Address, be_val, be_bytes, be_byte, extend_bytes, bytes_to_vec};
use crate::types::{lemma_pow256_succ, lemma_be_val_bound, lemma_be_val_of_be_bytes, lemma_be_bytes_of_be_val};
use crate::types::lemma_be_val_append;
use vstd::arithmetic::power::lemma_pow_positive;
use vstd::arithmetic::mul::lemma_mul_inequality;

verus! {

// =============================================================================
// Errors
// =============================================================================

/// RLP encoding/decoding errors.
#[derive(Debug, Clone, Copy, PartialEq, Eq, Structural)]
pub enum RlpError {
    /// Invalid encoding (e.g., a list where a string was expected).
    InvalidEncoding,
    /// Unexpected end of input.
    UnexpectedEnd,
    /// Invalid length.
    InvalidLength,
    /// Input too short for the announced payload.
    InputTooShort,
    /// Leading zero in a multi-byte length.
    LeadingZero,
    /// Non-canonical encoding (a shorter form exists).
    NonCanonical,
}

/// The description of each error.
pub open spec fn rlp_error_text(e: RlpError) -> Seq<char> {
    match e {
        RlpError::InvalidEncoding => "invalid RLP encoding"@,
        RlpError::UnexpectedEnd => "unexpected end of RLP input"@,
        RlpError::InvalidLength => "invalid length encoding"@,
        RlpError::InputTooShort => "input too short for expected data"@,
        RlpError::LeadingZero => "leading zero in multi-byte length"@,
        RlpError::NonCanonical => "non-canonical RLP encoding"@,
    }
}

impl RlpError {
    /// Human-readable description of the error.
    pub fn message(&self) -> (r: &'static str)
        ensures
            r@ == rlp_error_text(*self),
    {
        match self {
            RlpError::InvalidEncoding => "invalid RLP encoding",
            RlpError::UnexpectedEnd => "unexpected end of RLP input",
            RlpError::InvalidLength => "invalid length encoding",
            RlpError::InputTooShort => "input too short for expected data",
            RlpError::LeadingZero => "leading zero in multi-byte length",
            RlpError::NonCanonical => "non-canonical RLP encoding",
        }
    }
}

// =============================================================================
// Encoding specification
// =============================================================================

/// Big-endian bytes of a length prefix: 1 to 4 bytes, the fewest that hold
/// lengths below 2^32 (longer lengths keep their low 4 bytes).
pub open spec fn length_bytes(len: nat) -> Seq<u8> {
    if len < 256 {
        be_bytes(len, 1)
    } else if len < 65536 {
        be_bytes(len, 2)
    } else if len < 16777216 {
        be_bytes(len, 3)
    } else {
        be_bytes(len, 4)
    }
}

/// The RLP encoding of a byte string.
pub open spec fn rlp_string(b: Seq<u8>) -> Seq<u8> {
    if b.len() == 1 && b[0] < 0x80 {
        b
    } else if b.len() <= 55 {
        seq![(0x80 + b.len()) as u8] + b
    } else {
        seq![(0xb7 + length_bytes(b.len()).len()) as u8] + length_bytes(b.len()) + b
    }
}

/// The RLP encoding of a list whose concatenated item encodings are `payload`.
pub open spec fn rlp_list(payload: Seq<u8>) -> Seq<u8> {
    if payload.len() <= 55 {
        seq![(0xc0 + payload.len()) as u8] + payload
    } else {
        seq![(0xf7 + length_bytes(payload.len()).len()) as u8] + length_bytes(payload.len())
            + payload
    }
}

/// The sequence with its leading zero bytes removed.
pub open spec fn strip_leading_zeros(s: Seq<u8>) -> Seq<u8>
    decreases s.len(),
{
    if s.len() > 0 && s[0] == 0 {
        strip_leading_zeros(s.drop_first())
    } else {
        s
    }
}

/// The minimal big-endian bytes of `v` (empty for 0), taken from its `n`-byte encoding.
pub open spec fn minimal_be(v: nat, n: nat) -> Seq<u8> {
    strip_leading_zeros(be_bytes(v, n))
}

/// Concatenation of a sequence of byte strings.
pub open spec fn concat(items: Seq<Seq<u8>>) -> Seq<u8>
    decreases items.len(),
{
    if items.len() == 0 {
        Seq::empty()
    } else {
        concat(items.drop_last()) + items.last()
    }
}

// =============================================================================
// Decoding specification
// =============================================================================

/// Outcome of decoding a byte string: the bytes and the number of input bytes consumed.
pub open spec fn decode_bytes_spec(input: Seq<u8>) -> Result<(Seq<u8>, nat), RlpError> {
    if input.len() == 0 {
        Err(RlpError::UnexpectedEnd)
    } else {
        let first = input[0];
        if first < 0x80 {
            Ok((seq![first], 1))
        } else if first <= 0xb7 {
            let len = (first - 0x80) as nat;
            if len == 1 && input.len() >= 2 && input[1] < 0x80 {
                Err(RlpError::NonCanonical)
            } else if input.len() < 1 + len {
                Err(RlpError::InputTooShort)
            } else {
                Ok((input.subrange(1, 1 + len as int), 1 + len))
            }
        } else if first <= 0xbf {
            let lol = (first - 0xb7) as nat;
            if input.len() < 1 + lol {
                Err(RlpError::InputTooShort)
            } else if input[1] == 0 {
                Err(RlpError::LeadingZero)
            } else {
                let len = be_val(input.subrange(1, 1 + lol as int));
                if len <= 55 {
                    Err(RlpError::NonCanonical)
                } else if input.len() < 1 + lol + len {
                    Err(RlpError::InputTooShort)
                } else {
                    Ok((input.subrange(1 + lol as int, 1 + lol + len as int), 1 + lol + len))
                }
            }
        } else {
            Err(RlpError::InvalidEncoding)
        }
    }
}

/// Outcome of decoding a single byte.
pub open spec fn decode_byte_spec(input: Seq<u8>) -> Result<(u8, nat), RlpError> {
    if input.len() == 0 {
        Err(RlpError::UnexpectedEnd)
    } else if input[0] < 0x80 {
        Ok((input[0], 1))
    } else if input[0] == 0x81 {
        if input.len() < 2 {
            Err(RlpError::InputTooShort)
        } else {
            Ok((input[1], 2))
        }
    } else {
        Err(RlpError::InvalidEncoding)
    }
}

/// Outcome of decoding an unsigned integer of at most `max_len` bytes:
/// its value and the number of input bytes consumed.
pub open spec fn decode_uint_spec(input: Seq<u8>, max_len: nat) -> Result<(nat, nat), RlpError> {
    match decode_bytes_spec(input) {
        Err(e) => Err(e),
        Ok((b, n)) => {
            if b.len() == 0 {
                Ok((0, n))
            } else if b.len() > 1 && b[0] == 0 {
                Err(RlpError::NonCanonical)
            } else if b.len() > max_len {
                Err(RlpError::InvalidLength)
            } else {
                Ok((be_val(b), n))
            }
        },
    }
}

/// Outcome of decoding a fixed-width byte string of exactly `width` bytes.
pub open spec fn decode_fixed_spec(input: Seq<u8>, width: nat) -> Result<(Seq<u8>, nat), RlpError> {
    match decode_bytes_spec(input) {
        Err(e) => Err(e),
        Ok((b, n)) => {
            if b.len() != width {
                Err(RlpError::InvalidLength)
            } else {
                Ok((b, n))
            }
        },
    }
}

/// Length of the complete encoding of the first item of `input` (string or list).
pub open spec fn item_len_spec(input: Seq<u8>) -> Result<nat, RlpError> {
    if input.len() == 0 {
        Err(RlpError::UnexpectedEnd)
    } else {
        let first = input[0];
        if first < 0x80 {
            Ok(1)
        } else if first <= 0xb7 || (0xc0 <= first && first <= 0xf7) {
            let len = if first <= 0xb7 {
                (first - 0x80) as nat
            } else {
                (first - 0xc0) as nat
            };
            if input.len() < 1 + len {
                Err(RlpError::InputTooShort)
            } else {
                Ok(1 + len)
            }
        } else {
            let lol = if first <= 0xbf {
                (first - 0xb7) as nat
            } else {
                (first - 0xf7) as nat
            };
            if input.len() < 1 + lol {
                Err(RlpError::InputTooShort)
            } else if input[1] == 0 {
                Err(RlpError::LeadingZero)
            } else {
                let len = be_val(input.subrange(1, 1 + lol as int));
                if input.len() < 1 + lol + len {
                    Err(RlpError::InputTooShort)
                } else {
                    Ok(1 + lol + len)
                }
            }
        }
    }
}

/// Splitting a list payload into the complete encodings of its items.
pub open spec fn split_items(p: Seq<u8>) -> Result<Seq<Seq<u8>>, RlpError>
    decreases p.len(),
{
    if p.len() == 0 {
        Ok(Seq::empty())
    } else {
        match item_len_spec(p) {
            Err(e) => Err(e),
            Ok(n) => {
                if 0 < n <= p.len() {
                    match split_items(p.skip(n as int)) {
                        Err(e) => Err(e),
                        Ok(rest) => Ok(seq![p.take(n as int)] + rest),
                    }
                } else {
                    Err(RlpError::InputTooShort)
                }
            },
        }
    }
}

/// Outcome of decoding a list: the item encodings and the number of input bytes consumed.
pub open spec fn decode_list_spec(input: Seq<u8>) -> Result<(Seq<Seq<u8>>, nat), RlpError> {
    if input.len() == 0 {
        Err(RlpError::UnexpectedEnd)
    } else {
        let first = input[0];
        if first < 0xc0 {
            Err(RlpError::InvalidEncoding)
        } else if first <= 0xf7 {
            let len = (first - 0xc0) as nat;
            if input.len() < 1 + len {
                Err(RlpError::InputTooShort)
            } else {
                match split_items(input.subrange(1, 1 + len as int)) {
                    Err(e) => Err(e),
                    Ok(items) => Ok((items, 1 + len)),
                }
            }
        } else {
            let lol = (first - 0xf7) as nat;
            if input.len() < 1 + lol {
                Err(RlpError::InputTooShort)
            } else if input[1] == 0 {
                Err(RlpError::LeadingZero)
            } else {
                let len = be_val(input.subrange(1, 1 + lol as int));
                if len <= 55 {
                    Err(RlpError::NonCanonical)
                } else if input.len() < 1 + lol + len {
                    Err(RlpError::InputTooShort)
                } else {
                    match split_items(input.subrange(1 + lol as int, 1 + lol + len as int)) {
                        Err(e) => Err(e),
                        Ok(items) => Ok((items, 1 + lol + len)),
                    }
                }
            }
        }
    }
}

// =============================================================================
// Encoding
// =============================================================================

/// Encodes a single byte.
pub fn encode_byte(byte: u8) -> (r: Vec<u8>)
    ensures
        r@ == rlp_string(seq![byte]),
{
    if byte < 0x80 {
        let v = vec![byte];
        proof {
            assert(v@ =~= seq![byte]);
        }
        v
    } else {
        let v = vec![0x81, byte];
        proof {
            assert(v@ =~= seq![0x81u8] + seq![byte]);
        }
        v
    }
}

/// Big-endian length prefix bytes.
pub fn encode_length(len: usize) -> (r: Vec<u8>)
    ensures
        r@ == length_bytes(len as nat),
        1 <= r@.len() <= 4,
{
    proof {
        reveal(pow);
        assert(pow(256, 0) == 1);
        assert(pow(256, 1) == 256);
        assert(pow(256, 2) == 65536);
        assert(pow(256, 3) == 16777216);
        lemma_div_basics(len as int);
    }
    let v = if len < 256 {
        vec![len as u8]
    } else if len < 65536 {
        vec![((len / 256) % 256) as u8, (len % 256) as u8]
    } else if len < 16777216 {
        vec![((len / 65536) % 256) as u8, ((len / 256) % 256) as u8, (len % 256) as u8]
    } else {
        vec![
            ((len / 16777216) % 256) as u8,
            ((len / 65536) % 256) as u8,
            ((len / 256) % 256) as u8,
            (len % 256) as u8,
        ]
    };
    proof {
        assert(v@ =~= length_bytes(len as nat));
    }
    v
}

/// Encodes a byte slice.
pub fn encode_bytes(bytes: &[u8]) -> (r: Vec<u8>)
    ensures
        r@ == rlp_string(bytes@),
{
    if bytes.len() == 1 && bytes[0] < 0x80 {
        return bytes_to_vec(bytes);
    }
    if bytes.len() <= 55 {
        let mut result: Vec<u8> = Vec::new();
        result.push(0x80 + bytes.len() as u8);
        extend_bytes(&mut result, bytes);
        return result;
    }
    let len_bytes = encode_length(bytes.len());
    let mut result: Vec<u8> = Vec::new();
    result.push(0xb7 + len_bytes.len() as u8);
    extend_bytes(&mut result, len_bytes.as_slice());
    extend_bytes(&mut result, bytes);
    result
}

/// The first index at or after which `s` has no leading zero.
fn first_nonzero(s: &[u8]) -> (k: usize)
    ensures
        k <= s@.len(),
        strip_leading_zeros(s@) == s@.skip(k as int),
{
    let mut k: usize = 0;
    proof {
        assert(s@.skip(0) =~= s@);
    }
    while k < s.len() && s[k] == 0
        invariant
            k <= s@.len(),
            strip_leading_zeros(s@) == strip_leading_zeros(s@.skip(k as int)),
        decreases s@.len() - k,
    {
        proof {
            assert(s@.skip(k as int).drop_first() =~= s@.skip(k + 1));
        }
        k = k + 1;
    }
    k
}

/// The 8-byte big-endian encoding of a `u64`.
fn u64_to_be_bytes(n: u64) -> (r: [u8; 8])
    ensures
        r@ == be_bytes(n as nat, 8),
{
    let mut out = [0u8; 8];
    let mut cur = n;
    let mut k: usize = 0;
    proof {
        reveal(pow);
        lemma_div_basics(n as int);
    }
    while k < 8
        invariant
            k <= 8,
            out@.len() == 8,
            cur == (n as nat) / (pow(256, k as nat) as nat),
            forall|j: int| 8 - k <= j < 8 ==> out@[j] == be_byte(n as nat, 8, j),
        decreases 8 - k,
    {
        proof {
            lemma_pow256_succ(k as nat);
            lemma_div_denominator(n as int, pow(256, k as nat), 256);
            assert((8 - 1 - (7 - k)) as nat == k as nat);
        }
        out[7 - k] = (cur % 256) as u8;
        cur = cur / 256;
        k = k + 1;
    }
    proof {
        assert(out@ =~= be_bytes(n as nat, 8));
    }
    out
}

/// Encodes a u64 as its minimal big-endian bytes.
pub fn encode_u64(n: u64) -> (r: Vec<u8>)
    ensures
        r@ == rlp_string(minimal_be(n as nat, 8)),
{
    let bytes = u64_to_be_bytes(n);
    let start = first_nonzero(&bytes);
    encode_bytes(&bytes[start..8])
}

/// Encodes a U256 as its minimal big-endian bytes.
pub fn encode_u256(n: &U256) -> (r: Vec<u8>)
    ensures
        r@ == rlp_string(minimal_be(n@, 32)),
{
    let bytes = n.to_be_bytes();
    let start = first_nonzero(&bytes);
    encode_bytes(&bytes[start..32])
}

/// Encodes a U512 as its minimal big-endian bytes.
pub fn encode_u512(n: &U512) -> (r: Vec<u8>)
    ensures
        r@ == rlp_string(strip_leading_zeros(be_bytes(n.hi@, 32) + be_bytes(n.lo@, 32))),
{
    let bytes = n.to_be_bytes();
    proof {
        assert(bytes@ =~= bytes@.subrange(0, 32) + bytes@.subrange(32, 64));
    }
    let start = first_nonzero(&bytes);
    encode_bytes(&bytes[start..64])
}

/// Encodes an address.
pub fn encode_address(addr: &Address) -> (r: Vec<u8>)
    ensures
        r@ == rlp_string(addr@),
{
    encode_bytes(addr.as_bytes())
}

/// Encodes a hash.
pub fn encode_hash(hash: &crate::types::Hash) -> (r: Vec<u8>)
    ensures
        r@ == rlp_string(hash@),
{
    encode_bytes(hash.as_bytes())
}

/// Encodes a list of already-encoded items.
pub fn encode_list(items: &[Vec<u8>]) -> (r: Vec<u8>)
    ensures
        r@ == rlp_list(concat(items@.map_values(|v: Vec<u8>| v@))),
{
    let ghost views = items@.map_values(|v: Vec<u8>| v@);
    let mut payload: Vec<u8> = Vec::new();
    let mut i: usize = 0;
    while i < items.len()
        invariant
            i <= items@.len(),
            views == items@.map_values(|v: Vec<u8>| v@),
            payload@ == concat(views.take(i as int)),
        decreases items@.len() - i,
    {
        proof {
            assert(views.take(i + 1).drop_last() =~= views.take(i as int));
        }
        extend_bytes(&mut payload, items[i].as_slice());
        i = i + 1;
    }
    proof {
        assert(views.take(items@.len() as int) =~= views);
    }
    if payload.len() <= 55 {
        let mut result: Vec<u8> = Vec::new();
        result.push(0xc0 + payload.len() as u8);
        extend_bytes(&mut result, payload.as_slice());
        return result;
    }
    let len_bytes = encode_length(payload.len());
    let mut result: Vec<u8> = Vec::new();
    result.push(0xf7 + len_bytes.len() as u8);
    extend_bytes(&mut result, len_bytes.as_slice());
    extend_bytes(&mut result, payload.as_slice());
    result
}


// =============================================================================
// Decoding
// =============================================================================

/// Decodes a big-endian length of 1 to 8 bytes.
fn decode_length(bytes: &[u8]) -> (r: Result<u64, RlpError>)
    requires
        bytes@.len() <= 8,
    ensures
        match r {
            Ok(v) => bytes@.len() > 0 && v == be_val(bytes@),
            Err(e) => bytes@.len() == 0 && e == RlpError::InvalidLength,
        },
{
    if bytes.len() == 0 {
        return Err(RlpError::InvalidLength);
    }
    let mut len: u64 = 0;
    let mut i: usize = 0;
    proof {
        reveal(pow);
        assert(bytes@.take(0) =~= Seq::<u8>::empty());
    }
    while i < bytes.len()
        invariant
            i <= bytes@.len() <= 8,
            len == be_val(bytes@.take(i as int)),
        decreases bytes@.len() - i,
    {
        proof {
            assert(bytes@.take(i + 1).drop_last() =~= bytes@.take(i as int));
            lemma_be_val_bound(bytes@.take(i + 1));
            lemma_pow_increases_256((i + 1) as nat, 8);
        }
        len = len * 256 + bytes[i] as u64;
        i = i + 1;
    }
    proof {
        assert(bytes@.take(bytes@.len() as int) =~= bytes@);
    }
    Ok(len)
}

/// `256^e1 <= 256^e2` when `e1 <= e2`, and `256^8 = 2^64`.
proof fn lemma_pow_increases_256(e1: nat, e2: nat)
    requires
        e1 <= e2,
    ensures
        pow(256, e1) <= pow(256, e2),
        pow(256, 8) == 0x1_0000_0000_0000_0000,
{
    vstd::arithmetic::power::lemma_pow_increases(256, e1, e2);
    reveal_with_fuel(pow, 9);
}

/// Decodes a single byte, returning it and the remaining input.
pub fn decode_byte(input: &[u8]) -> (r: Result<(u8, &[u8]), RlpError>)
    ensures
        match decode_byte_spec(input@) {
            Ok((b, n)) => r matches Ok((rb, rest)) && rb == b && rest@ == input@.skip(n as int),
            Err(e) => r matches Err(re) && re == e,
        },
{
    if input.len() == 0 {
        return Err(RlpError::UnexpectedEnd);
    }
    let first = input[0];
    if first < 0x80 {
        Ok((first, &input[1..input.len()]))
    } else if first == 0x81 {
        if input.len() < 2 {
            return Err(RlpError::InputTooShort);
        }
        Ok((input[1], &input[2..input.len()]))
    } else {
        Err(RlpError::InvalidEncoding)
    }
}

/// Decodes a byte string, returning its bytes and the remaining input.
pub fn decode_bytes(input: &[u8]) -> (r: Result<(Vec<u8>, &[u8]), RlpError>)
    ensures
        match decode_bytes_spec(input@) {
            Ok((b, n)) => r matches Ok((rb, rest)) && rb@ == b && rest@ == input@.skip(n as int),
            Err(e) => r matches Err(re) && re == e,
        },
{
    if input.len() == 0 {
        return Err(RlpError::UnexpectedEnd);
    }
    let first = input[0];
    if first < 0x80 {
        let v = vec![first];
        proof {
            assert(v@ =~= seq![first]);
        }
        Ok((v, &input[1..input.len()]))
    } else if first <= 0xb7 {
        let len = (first - 0x80) as usize;
        if len == 1 && input.len() >= 2 && input[1] < 0x80 {
            return Err(RlpError::NonCanonical);
        }
        if input.len() < 1 + len {
            return Err(RlpError::InputTooShort);
        }
        Ok((bytes_to_vec(&input[1..1 + len]), &input[1 + len..input.len()]))
    } else if first <= 0xbf {
        let lol = (first - 0xb7) as usize;
        if input.len() < 1 + lol {
            return Err(RlpError::InputTooShort);
        }
        if input[1] == 0 {
            return Err(RlpError::LeadingZero);
        }
        let len = match decode_length(&input[1..1 + lol]) {
            Ok(l) => l,
            Err(e) => return Err(e),
        };
        if len <= 55 {
            return Err(RlpError::NonCanonical);
        }
        let avail = (input.len() - 1 - lol) as u64;
        if len > avail {
            return Err(RlpError::InputTooShort);
        }
        let len = len as usize;
        Ok((bytes_to_vec(&input[1 + lol..1 + lol + len]), &input[1 + lol + len..input.len()]))
    } else {
        Err(RlpError::InvalidEncoding)
    }
}

/// Decodes a u64, returning the value and the remaining input.
pub fn decode_u64(input: &[u8]) -> (r: Result<(u64, &[u8]), RlpError>)
    ensures
        match decode_uint_spec(input@, 8) {
            Ok((v, n)) => r matches Ok((rv, rest)) && rv == v && rest@ == input@.skip(n as int),
            Err(e) => r matches Err(re) && re == e,
        },
{
    let (bytes, rest) = match decode_bytes(input) {
        Ok(p) => p,
        Err(e) => return Err(e),
    };
    if bytes.len() == 0 {
        proof {
            reveal(be_val);
        }
        return Ok((0, rest));
    }
    if bytes.len() > 1 && bytes[0] == 0 {
        return Err(RlpError::NonCanonical);
    }
    if bytes.len() > 8 {
        return Err(RlpError::InvalidLength);
    }
    let value = match decode_length(bytes.as_slice()) {
        Ok(v) => v,
        Err(e) => return Err(e),
    };
    Ok((value, rest))
}

/// Decodes a U256, returning the value and the remaining input.
pub fn decode_u256(input: &[u8]) -> (r: Result<(U256, &[u8]), RlpError>)
    ensures
        match decode_uint_spec(input@, 32) {
            Ok((v, n)) => r matches Ok((rv, rest)) && rv@ == v && rest@ == input@.skip(n as int),
            Err(e) => r matches Err(re) && re == e,
        },
{
    let (bytes, rest) = match decode_bytes(input) {
        Ok(p) => p,
        Err(e) => return Err(e),
    };
    if bytes.len() == 0 {
        return Ok((U256::zero(), rest));
    }
    if bytes.len() > 1 && bytes[0] == 0 {
        return Err(RlpError::NonCanonical);
    }
    if bytes.len() > 32 {
        return Err(RlpError::InvalidLength);
    }
    Ok((U256::from_be_slice(bytes.as_slice()), rest))
}

/// A sequence of zero bytes reads as 0.
proof fn lemma_be_val_zeros(n: nat)
    ensures
        be_val(Seq::new(n, |i: int| 0u8)) == 0,
    decreases n,
{
    if n > 0 {
        assert(Seq::new(n, |i: int| 0u8).drop_last() =~= Seq::new((n - 1) as nat, |i: int| 0u8));
        lemma_be_val_zeros((n - 1) as nat);
    }
}

/// Decodes a U512, returning the value and the remaining input.
pub fn decode_u512(input: &[u8]) -> (r: Result<(U512, &[u8]), RlpError>)
    ensures
        match decode_uint_spec(input@, 64) {
            Ok((v, n)) => r matches Ok((rv, rest)) && rv@ == v && rest@ == input@.skip(n as int),
            Err(e) => r matches Err(re) && re == e,
        },
{
    let (bytes, rest) = match decode_bytes(input) {
        Ok(p) => p,
        Err(e) => return Err(e),
    };
    if bytes.len() == 0 {
        return Ok((U512::zero(), rest));
    }
    if bytes.len() > 1 && bytes[0] == 0 {
        return Err(RlpError::NonCanonical);
    }
    if bytes.len() > 64 {
        return Err(RlpError::InvalidLength);
    }
    let mut padded = [0u8; 64];
    let off = 64 - bytes.len();
    let mut i: usize = 0;
    while i < bytes.len()
        invariant
            i <= bytes@.len() <= 64,
            off == 64 - bytes@.len(),
            padded@.len() == 64,
            forall|j: int| 0 <= j < off ==> padded@[j] == 0,
            forall|j: int| 0 <= j < i ==> padded@[off + j] == bytes@[j],
        decreases bytes@.len() - i,
    {
        padded[off + i] = bytes[i];
        i = i + 1;
    }
    proof {
        let z = Seq::new(off as nat, |i: int| 0u8);
        assert(padded@ =~= z + bytes@);
        crate::types::lemma_be_val_append(z, bytes@);
        lemma_be_val_zeros(off as nat);
    }
    Ok((U512::from_be_bytes(padded), rest))
}

/// Decodes an address (exactly 20 bytes).
pub fn decode_address(input: &[u8]) -> (r: Result<(Address, &[u8]), RlpError>)
    ensures
        match decode_fixed_spec(input@, 20) {
            Ok((b, n)) => r matches Ok((ra, rest)) && ra@ == b && rest@ == input@.skip(n as int),
            Err(e) => r matches Err(re) && re == e,
        },
{
    let (bytes, rest) = match decode_bytes(input) {
        Ok(p) => p,
        Err(e) => return Err(e),
    };
    match Address::from_slice(bytes.as_slice()) {
        Some(a) => Ok((a, rest)),
        None => Err(RlpError::InvalidLength),
    }
}

/// Decodes a hash (exactly 32 bytes).
pub fn decode_hash(input: &[u8]) -> (r: Result<(crate::types::Hash, &[u8]), RlpError>)
    ensures
        match decode_fixed_spec(input@, 32) {
            Ok((b, n)) => r matches Ok((rh, rest)) && rh@ == b && rest@ == input@.skip(n as int),
            Err(e) => r matches Err(re) && re == e,
        },
{
    let (bytes, rest) = match decode_bytes(input) {
        Ok(p) => p,
        Err(e) => return Err(e),
    };
    if bytes.len() != 32 {
        return Err(RlpError::InvalidLength);
    }
    let mut hb = [0u8; 32];
    let mut i: usize = 0;
    while i < 32
        invariant
            i <= 32,
            bytes@.len() == 32,
            hb@.len() == 32,
            forall|j: int| 0 <= j < i ==> hb@[j] == bytes@[j],
        decreases 32 - i,
    {
        hb[i] = bytes[i];
        i = i + 1;
    }
    proof {
        assert(hb@ =~= bytes@);
    }
    Ok((crate::types::Hash::new(hb), rest))
}

/// Decodes the first item of `input` (string or list) and returns its complete encoding.
fn decode_item(input: &[u8]) -> (r: Result<Vec<u8>, RlpError>)
    ensures
        match item_len_spec(input@) {
            Ok(n) => r matches Ok(v) && v@ == input@.take(n as int) && 0 < n <= input@.len(),
            Err(e) => r matches Err(re) && re == e,
        },
{
    if input.len() == 0 {
        return Err(RlpError::UnexpectedEnd);
    }
    let first = input[0];
    if first < 0x80 {
        let v = vec![first];
        proof {
            assert(v@ =~= input@.take(1));
        }
        Ok(v)
    } else if first <= 0xb7 || (0xc0 <= first && first <= 0xf7) {
        let len = if first <= 0xb7 {
            (first - 0x80) as usize
        } else {
            (first - 0xc0) as usize
        };
        if input.len() < 1 + len {
            return Err(RlpError::InputTooShort);
        }
        Ok(bytes_to_vec(&input[0..1 + len]))
    } else {
        let lol = if first <= 0xbf {
            (first - 0xb7) as usize
        } else {
            (first - 0xf7) as usize
        };
        if input.len() < 1 + lol {
            return Err(RlpError::InputTooShort);
        }
        if input[1] == 0 {
            return Err(RlpError::LeadingZero);
        }
        let len = match decode_length(&input[1..1 + lol]) {
            Ok(l) => l,
            Err(e) => return Err(e),
        };
        let avail = (input.len() - 1 - lol) as u64;
        if len > avail {
            return Err(RlpError::InputTooShort);
        }
        let len = len as usize;
        Ok(bytes_to_vec(&input[0..1 + lol + len]))
    }
}

/// Prepends decoded items to the outcome of splitting the rest of a payload.
pub open spec fn prepend_items(
    xs: Seq<Seq<u8>>,
    r: Result<Seq<Seq<u8>>, RlpError>,
) -> Result<Seq<Seq<u8>>, RlpError> {
    match r {
        Ok(s) => Ok(xs + s),
        Err(e) => Err(e),
    }
}

/// Splits a list payload into the complete encodings of its items.
fn decode_list_payload(payload: &[u8]) -> (r: Result<Vec<Vec<u8>>, RlpError>)
    ensures
        match split_items(payload@) {
            Ok(items) => r matches Ok(v) && v@.map_values(|x: Vec<u8>| x@) == items,
            Err(e) => r matches Err(re) && re == e,
        },
{
    let mut items: Vec<Vec<u8>> = Vec::new();
    let mut rest: &[u8] = payload;
    proof {
        assert(items@.map_values(|x: Vec<u8>| x@) =~= Seq::<Seq<u8>>::empty());
        assert(prepend_items(Seq::empty(), split_items(payload@)) =~= split_items(payload@));
    }
    while rest.len() > 0
        invariant
            split_items(payload@) == prepend_items(
                items@.map_values(|x: Vec<u8>| x@),
                split_items(rest@),
            ),
        decreases rest@.len(),
    {
        let item = match decode_item(rest) {
            Ok(v) => v,
            Err(e) => return Err(e),
        };
        let n = item.len();
        let ghost xs = items@.map_values(|x: Vec<u8>| x@);
        let ghost old_rest = rest@;
        items.push(item);
        rest = &rest[n..rest.len()];
        proof {
            assert(items@.map_values(|x: Vec<u8>| x@) =~= xs + seq![old_rest.take(n as int)]);
            match split_items(rest@) {
                Ok(s) => {
                    assert(xs + (seq![old_rest.take(n as int)] + s) =~= (xs + seq![
                        old_rest.take(n as int),
                    ]) + s);
                },
                Err(e) => {},
            }
        }
    }
    proof {
        assert(items@.map_values(|x: Vec<u8>| x@) + Seq::<Seq<u8>>::empty() =~= items@.map_values(
            |x: Vec<u8>| x@,
        ));
    }
    Ok(items)
}

/// Decodes a list, returning the complete encodings of its items and the remaining input.
pub fn decode_list(input: &[u8]) -> (r: Result<(Vec<Vec<u8>>, &[u8]), RlpError>)
    ensures
        match decode_list_spec(input@) {
            Ok((items, n)) => r matches Ok((v, rest)) && v@.map_values(|x: Vec<u8>| x@) == items
                && rest@ == input@.skip(n as int),
            Err(e) => r matches Err(re) && re == e,
        },
{
    if input.len() == 0 {
        return Err(RlpError::UnexpectedEnd);
    }
    let first = input[0];
    if first < 0xc0 {
        Err(RlpError::InvalidEncoding)
    } else if first <= 0xf7 {
        let len = (first - 0xc0) as usize;
        if input.len() < 1 + len {
            return Err(RlpError::InputTooShort);
        }
        let items = match decode_list_payload(&input[1..1 + len]) {
            Ok(v) => v,
            Err(e) => return Err(e),
        };
        Ok((items, &input[1 + len..input.len()]))
    } else {
        let lol = (first - 0xf7) as usize;
        if input.len() < 1 + lol {
            return Err(RlpError::InputTooShort);
        }
        if input[1] == 0 {
            return Err(RlpError::LeadingZero);
        }
        let len = match decode_length(&input[1..1 + lol]) {
            Ok(l) => l,
            Err(e) => return Err(e),
        };
        if len <= 55 {
            return Err(RlpError::NonCanonical);
        }
        let avail = (input.len() - 1 - lol) as u64;
        if len > avail {
            return Err(RlpError::InputTooShort);
        }
        let len = len as usize;
        let items = match decode_list_payload(&input[1 + lol..1 + lol + len]) {
            Ok(v) => v,
            Err(e) => return Err(e),
        };
        Ok((items, &input[1 + lol + len..input.len()]))
    }
}

// =============================================================================
// Laws
// =============================================================================

/// A length of 56 to 2^32 - 1 is written in 1 to 4 bytes with a nonzero first
/// byte, and those bytes read back as the length.
pub proof fn lemma_length_bytes(len: nat)
    requires
        55 < len < 0x1_0000_0000,
    ensures
        1 <= length_bytes(len).len() <= 4,
        length_bytes(len)[0] != 0,
        be_val(length_bytes(len)) == len,
{
    reveal_with_fuel(pow, 5);
    let k: nat = if len < 256 {
        1
    } else if len < 65536 {
        2
    } else if len < 16777216 {
        3
    } else {
        4
    };
    assert(length_bytes(len) == be_bytes(len, k));
    lemma_be_val_of_be_bytes(len, k);
    lemma_small_mod(len, pow(256, k) as nat);
    let d = pow(256, (k - 1) as nat);
    assert(d > 0);
    assert(len >= d);
    assert(len < d * 256);
    lemma_div_is_ordered(d as int, len as int, d as int);
    lemma_div_by_self(d);
    assert(len as int / d >= 1);
    lemma_div_by_multiple_is_strongly_ordered(len as int, (d * 256) as int, 256, d);
    lemma_div_multiples_vanish(256, d);
    lemma_mul_is_commutative_256(d);
    lemma_small_mod((len / (d as nat)) as nat, 256);
}

proof fn lemma_mul_is_commutative_256(d: int)
    ensures
        d * 256 == 256 * d,
{
}

/// Decoding the encoding of a byte string (shorter than 2^32 bytes) gives the
/// string back and consumes exactly its encoding.
pub proof fn lemma_decode_encode_bytes(b: Seq<u8>, rest: Seq<u8>)
    requires
        b.len() < 0x1_0000_0000,
    ensures
        decode_bytes_spec(rlp_string(b) + rest) == Ok::<(Seq<u8>, nat), RlpError>(
            (b, rlp_string(b).len()),
        ),
{
    let e = rlp_string(b);
    let input = e + rest;
    if b.len() == 1 && b[0] < 0x80 {
        assert(seq![input[0]] =~= b);
    } else if b.len() <= 55 {
        assert(input.subrange(1, 1 + b.len() as int) =~= b);
    } else {
        let l = length_bytes(b.len());
        lemma_length_bytes(b.len());
        assert(input.subrange(1, 1 + l.len() as int) =~= l);
        assert(input[1] == l[0]);
        assert(input.subrange(1 + l.len() as int, 1 + l.len() + b.len() as int) =~= b);
    }
}

/// A big-endian byte string with a nonzero first byte is at least 256^(len - 1).
proof fn lemma_be_val_lower(s: Seq<u8>)
    requires
        s.len() > 0,
        s[0] != 0,
    ensures
        be_val(s) >= pow(256, (s.len() - 1) as nat),
{
    lemma_be_val_append(seq![s[0]], s.drop_first());
    assert(seq![s[0]] + s.drop_first() =~= s);
    reveal_with_fuel(be_val, 2);
    assert(be_val(seq![s[0]]) == s[0]) by {
        assert(seq![s[0]].drop_last() =~= Seq::<u8>::empty());
    }
    lemma_pow_positive(256, (s.len() - 1) as nat);
    lemma_mul_inequality(1, s[0] as int, pow(256, (s.len() - 1) as nat));
}

/// Decoding accepts only canonical encodings: whatever byte string `b` a
/// decoding gives (one shorter than 2^32 bytes), the input bytes it consumed
/// are exactly the encoding of `b`.
pub proof fn lemma_decode_bytes_canonical(input: Seq<u8>, b: Seq<u8>, n: nat)
    requires
        decode_bytes_spec(input) == Ok::<(Seq<u8>, nat), RlpError>((b, n)),
        b.len() < 0x1_0000_0000,
    ensures
        input.subrange(0, n as int) =~= rlp_string(b),
{
    let first = input[0];
    if first < 0x80 {
        assert(input.subrange(0, 1) =~= seq![first]);
    } else if first <= 0xb7 {
        assert(input.subrange(0, n as int) =~= seq![first] + b);
    } else {
        let lol = (first - 0xb7) as nat;
        let bytes = input.subrange(1, 1 + lol as int);
        let len = be_val(bytes);
        assert(b.len() == len);
        lemma_be_val_lower(bytes);
        lemma_be_val_bound(bytes);
        lemma_be_bytes_of_be_val(bytes);
        reveal_with_fuel(pow, 9);
        if lol >= 5 {
            lemma_pow_increases_256(4, (lol - 1) as nat);
            assert(false);
        }
        assert(length_bytes(len) =~= bytes);
        assert(input.subrange(0, n as int) =~= seq![first] + bytes + b);
    }
}

/// Removing leading zeros keeps the value and leaves a nonzero first byte.
pub proof fn lemma_strip_leading_zeros(s: Seq<u8>)
    ensures
        be_val(strip_leading_zeros(s)) == be_val(s),
        strip_leading_zeros(s).len() <= s.len(),
        strip_leading_zeros(s).len() > 0 ==> strip_leading_zeros(s)[0] != 0,
    decreases s.len(),
{
    if s.len() > 0 && s[0] == 0 {
        lemma_strip_leading_zeros(s.drop_first());
        assert(s =~= seq![0u8] + s.drop_first());
        crate::types::lemma_be_val_append(seq![0u8], s.drop_first());
        assert(seq![0u8].drop_last() =~= Seq::<u8>::empty());
        assert(be_val(seq![0u8]) == be_val(seq![0u8].drop_last()) * 256 + seq![0u8].last());
        assert(be_val(Seq::<u8>::empty()) == 0);
        assert(be_val(seq![0u8]) == 0);
        vstd::arithmetic::mul::lemma_mul_basics(pow(256, s.drop_first().len()));
    }
}

/// Decoding the encoding of a u64 gives the number back.
pub proof fn lemma_decode_encode_u64(n: u64, rest: Seq<u8>)
    ensures
        decode_uint_spec(rlp_string(minimal_be(n as nat, 8)) + rest, 8) == Ok::<(nat, nat), RlpError>(
            (n as nat, rlp_string(minimal_be(n as nat, 8)).len()),
        ),
{
    let m = minimal_be(n as nat, 8);
    lemma_strip_leading_zeros(be_bytes(n as nat, 8));
    lemma_decode_encode_bytes(m, rest);
    lemma_be_val_of_be_bytes(n as nat, 8);
    lemma_pow_increases_256(8, 8);
    lemma_small_mod(n as nat, pow(256, 8) as nat);
    if m.len() == 0 {
        reveal(be_val);
    }
}

/// Decoding the encoding of a word gives the word back.
pub proof fn lemma_decode_encode_u256(x: U256, rest: Seq<u8>)
    ensures
        decode_uint_spec(rlp_string(minimal_be(x@, 32)) + rest, 32) == Ok::<(nat, nat), RlpError>(
            (x@, rlp_string(minimal_be(x@, 32)).len()),
        ),
{
    let m = minimal_be(x@, 32);
    lemma_strip_leading_zeros(be_bytes(x@, 32));
    lemma_decode_encode_bytes(m, rest);
    crate::types::lemma_u256_bytes_roundtrip(x);
    if m.len() == 0 {
        reveal(be_val);
    }
}

/// Decoding the encoding of a byte gives the byte back.
pub proof fn lemma_decode_encode_byte(b: u8, rest: Seq<u8>)
    ensures
        decode_byte_spec(rlp_string(seq![b]) + rest) == Ok::<(u8, nat), RlpError>(
            (b, rlp_string(seq![b]).len()),
        ),
{
}
/// Decoding the encoding of a fixed-width byte string (an address, a hash) gives
/// it back.
pub proof fn lemma_decode_encode_fixed(b: Seq<u8>, width: nat, rest: Seq<u8>)
    requires
        b.len() == width,
        width < 0x1_0000_0000,
    ensures
        decode_fixed_spec(rlp_string(b) + rest, width) == Ok::<(Seq<u8>, nat), RlpError>(
            (b, rlp_string(b).len()),
        ),
{
    lemma_decode_encode_bytes(b, rest);
}

/// Decoding the encoding of a 512-bit number gives the number back.
pub proof fn lemma_decode_encode_u512(x: U512, rest: Seq<u8>)
    ensures
        decode_uint_spec(
            rlp_string(strip_leading_zeros(be_bytes(x.hi@, 32) + be_bytes(x.lo@, 32))) + rest,
            64,
        ) == Ok::<(nat, nat), RlpError>(
            (
                x@,
                rlp_string(strip_leading_zeros(be_bytes(x.hi@, 32) + be_bytes(x.lo@, 32))).len(),
            ),
        ),
{
    let full = be_bytes(x.hi@, 32) + be_bytes(x.lo@, 32);
    let m = strip_leading_zeros(full);
    lemma_strip_leading_zeros(full);
    lemma_decode_encode_bytes(m, rest);
    crate::types::lemma_u256_bytes_roundtrip(x.hi);
    crate::types::lemma_u256_bytes_roundtrip(x.lo);
    crate::types::lemma_be_val_append(be_bytes(x.hi@, 32), be_bytes(x.lo@, 32));
    crate::types::lemma_pow256_bytes();
    if m.len() == 0 {
        reveal(be_val);
    }
}

/// A string encoding is a complete item: its length is read from its own prefix,
/// whatever follows it.
pub proof fn lemma_item_len_string(b: Seq<u8>, rest: Seq<u8>)
    requires
        b.len() < 0x1_0000_0000,
    ensures
        item_len_spec(rlp_string(b) + rest) == Ok::<nat, RlpError>(rlp_string(b).len()),
{
    let e = rlp_string(b);
    let input = e + rest;
    if !(b.len() == 1 && b[0] < 0x80) && b.len() > 55 {
        let l = length_bytes(b.len());
        lemma_length_bytes(b.len());
        assert(input.subrange(1, 1 + l.len() as int) =~= l);
        assert(input[1] == l[0]);
    }
}

/// A list encoding is a complete item: its length is read from its own prefix,
/// whatever follows it.
pub proof fn lemma_item_len_list(payload: Seq<u8>, rest: Seq<u8>)
    requires
        payload.len() < 0x1_0000_0000,
    ensures
        item_len_spec(rlp_list(payload) + rest) == Ok::<nat, RlpError>(rlp_list(payload).len()),
{
    let e = rlp_list(payload);
    let input = e + rest;
    if payload.len() > 55 {
        let l = length_bytes(payload.len());
        lemma_length_bytes(payload.len());
        assert(input.subrange(1, 1 + l.len() as int) =~= l);
        assert(input[1] == l[0]);
    }
}

/// A concatenation of items is the first item followed by the concatenation of
/// the others.
proof fn lemma_concat_first(items: Seq<Seq<u8>>)
    requires
        items.len() > 0,
    ensures
        concat(items) == items[0] + concat(items.drop_first()),
    decreases items.len(),
{
    if items.len() == 1 {
        assert(items.drop_last() =~= Seq::<Seq<u8>>::empty());
        assert(items.drop_first() =~= Seq::<Seq<u8>>::empty());
        assert(concat(items) =~= items[0] + concat(items.drop_first()));
    } else {
        lemma_concat_first(items.drop_last());
        assert(items.drop_last().drop_first() =~= items.drop_first().drop_last());
        assert(items.drop_first().last() == items.last());
        assert(concat(items) =~= items[0] + concat(items.drop_first()));
    }
}

/// Complete items placed one after another split back into the same items.
proof fn lemma_split_concat(items: Seq<Seq<u8>>)
    requires
        forall|i: int, tail: Seq<u8>|
            0 <= i < items.len() ==> #[trigger] item_len_spec(items[i] + tail) == Ok::<
                nat,
                RlpError,
            >(items[i].len()),
    ensures
        split_items(concat(items)) == Ok::<Seq<Seq<u8>>, RlpError>(items),
    decreases items.len(),
{
    if items.len() == 0 {
        assert(concat(items) =~= Seq::<u8>::empty());
        assert(items =~= Seq::<Seq<u8>>::empty());
    } else {
        let first = items[0];
        let others = items.drop_first();
        let p = concat(items);
        lemma_concat_first(items);
        assert(item_len_spec(items[0] + concat(others)) == Ok::<nat, RlpError>(first.len()));
        assert(item_len_spec(items[0] + Seq::<u8>::empty()) == Ok::<nat, RlpError>(first.len()));
        assert(items[0] + Seq::<u8>::empty() =~= items[0]);
        assert(first.len() > 0);
        assert forall|i: int, tail: Seq<u8>| 0 <= i < others.len() implies #[trigger] item_len_spec(
            others[i] + tail,
        ) == Ok::<nat, RlpError>(others[i].len()) by {
            assert(others[i] == items[i + 1]);
            assert(item_len_spec(items[i + 1] + tail) == Ok::<nat, RlpError>(items[i + 1].len()));
        }
        lemma_split_concat(others);
        assert(p.skip(first.len() as int) =~= concat(others));
        assert(p.take(first.len() as int) =~= first);
        assert(seq![first] + others =~= items);
    }
}

/// A list of byte strings round-trips: decoding the list encoding of their
/// string encodings (each string and the payload shorter than 2^32 bytes) gives
/// the item encodings back, each of which decodes to its string, and consumes
/// exactly the list encoding.
pub proof fn lemma_decode_encode_string_list(strs: Seq<Seq<u8>>, rest: Seq<u8>)
    requires
        forall|i: int| 0 <= i < strs.len() ==> (#[trigger] strs[i]).len() < 0x1_0000_0000,
        concat(strs.map_values(|b: Seq<u8>| rlp_string(b))).len() < 0x1_0000_0000,
    ensures
        ({
            let items = strs.map_values(|b: Seq<u8>| rlp_string(b));
            &&& decode_list_spec(rlp_list(concat(items)) + rest) == Ok::<(Seq<Seq<u8>>, nat), RlpError>(
                (items, rlp_list(concat(items)).len()),
            )
            &&& forall|i: int| 0 <= i < items.len() ==> decode_bytes_spec(#[trigger] items[i]) == Ok::<
                (Seq<u8>, nat),
                RlpError,
            >((strs[i], items[i].len()))
        }),
{
    let items = strs.map_values(|b: Seq<u8>| rlp_string(b));
    assert forall|i: int, tail: Seq<u8>| 0 <= i < items.len() implies #[trigger] item_len_spec(items[i] + tail)
        == Ok::<nat, RlpError>(items[i].len()) by {
        lemma_item_len_string(strs[i], tail);
    }
    lemma_decode_encode_list(items, rest);
    assert forall|i: int| 0 <= i < items.len() implies decode_bytes_spec(#[trigger] items[i]) == Ok::<
        (Seq<u8>, nat),
        RlpError,
    >((strs[i], items[i].len())) by {
        lemma_decode_encode_bytes(strs[i], Seq::empty());
        assert(rlp_string(strs[i]) + Seq::<u8>::empty() =~= items[i]);
    }
}

/// Decoding the encoding of a list of complete item encodings (whose payload is
/// shorter than 2^32 bytes) gives the items back and consumes exactly the encoding.
pub proof fn lemma_decode_encode_list(items: Seq<Seq<u8>>, rest: Seq<u8>)
    requires
        concat(items).len() < 0x1_0000_0000,
        forall|i: int, tail: Seq<u8>|
            0 <= i < items.len() ==> #[trigger] item_len_spec(items[i] + tail) == Ok::<
                nat,
                RlpError,
            >(items[i].len()),
    ensures
        decode_list_spec(rlp_list(concat(items)) + rest) == Ok::<(Seq<Seq<u8>>, nat), RlpError>(
            (items, rlp_list(concat(items)).len()),
        ),
{
    let payload = concat(items);
    let input = rlp_list(payload) + rest;
    lemma_split_concat(items);
    if payload.len() <= 55 {
        assert(input.subrange(1, 1 + payload.len() as int) =~= payload);
    } else {
        let l = length_bytes(payload.len());
        lemma_length_bytes(payload.len());
        assert(input.subrange(1, 1 + l.len() as int) =~= l);
        assert(input[1] == l[0]);
        assert(input.subrange(1 + l.len() as int, 1 + l.len() + payload.len() as int) =~= payload);
    }
}

} // verus!
