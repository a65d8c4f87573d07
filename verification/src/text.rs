//! Rendering of numbers as text: lower-case hexadecimal and decimal digits,
//! and padding to a column width.

use vstd::prelude::*;
use vstd::string::*;

verus! {

/// The lower-case hexadecimal digit of `d` (0 to 15).
pub open spec fn hex_char(d: nat) -> char {
    if d < 10 {
        (48 + d) as char
    } else {
        (87 + d) as char
    }
}

/// `n` in lower-case hexadecimal, without leading zeros ("0" for zero).
pub open spec fn hex_text(n: nat) -> Seq<char>
    decreases n,
{
    if n < 16 {
        seq![hex_char(n)]
    } else {
        hex_text(n / 16).push(hex_char(n % 16))
    }
}

/// `n` in decimal, without leading zeros ("0" for zero).
pub open spec fn dec_text(n: nat) -> Seq<char>
    decreases n,
{
    if n < 10 {
        seq![hex_char(n)]
    } else {
        dec_text(n / 10).push(hex_char(n % 10))
    }
}

/// Two lower-case hexadecimal digits of a byte.
pub open spec fn byte_hex(b: u8) -> Seq<char> {
    seq![hex_char((b / 16) as nat), hex_char((b % 16) as nat)]
}

/// `count` copies of `c`.
pub open spec fn fill(c: char, count: nat) -> Seq<char> {
    Seq::new(count, |_i: int| c)
}

/// The number of characters that `s` lacks to reach `width` (0 when it is wide enough).
pub open spec fn shortfall(s: Seq<char>, width: nat) -> nat {
    if s.len() < width {
        (width - s.len()) as nat
    } else {
        0
    }
}

/// `s` right-aligned in a column of `width`, filled on the left with `c`.
pub open spec fn pad_left(s: Seq<char>, width: nat, c: char) -> Seq<char> {
    fill(c, shortfall(s, width)) + s
}

/// `s` left-aligned in a column of `width`, filled on the right with spaces.
pub open spec fn pad_right(s: Seq<char>, width: nat) -> Seq<char> {
    s + fill(' ', shortfall(s, width))
}

/// The one-character text of the digit `d` (0 to 15), in lower-case hexadecimal.
pub fn digit_str(d: u8) -> (r: &'static str)
    requires
        d < 16,
    ensures
        r@ == seq![hex_char(d as nat)],
{
    proof {
        reveal_strlit("0");
        reveal_strlit("1");
        reveal_strlit("2");
        reveal_strlit("3");
        reveal_strlit("4");
        reveal_strlit("5");
        reveal_strlit("6");
        reveal_strlit("7");
        reveal_strlit("8");
        reveal_strlit("9");
        reveal_strlit("a");
        reveal_strlit("b");
        reveal_strlit("c");
        reveal_strlit("d");
        reveal_strlit("e");
        reveal_strlit("f");
    }
    match d {
        0u8 => "0",
        1u8 => "1",
        2u8 => "2",
        3u8 => "3",
        4u8 => "4",
        5u8 => "5",
        6u8 => "6",
        7u8 => "7",
        8u8 => "8",
        9u8 => "9",
        10u8 => "a",
        11u8 => "b",
        12u8 => "c",
        13u8 => "d",
        14u8 => "e",
        _ => "f",
    }
}

/// Appends `n` in lower-case hexadecimal.
pub fn push_hex(out: &mut String, n: u64)
    ensures
        final(out)@ == old(out)@ + hex_text(n as nat),
    decreases n,
{
    if n >= 16 {
        push_hex(out, n / 16);
    }
    out.append(digit_str((n % 16) as u8));
    proof {
        assert(hex_text(n as nat) == if n < 16 {
            seq![hex_char(n as nat)]
        } else {
            hex_text((n / 16) as nat).push(hex_char((n % 16) as nat))
        });
    }
}

/// Appends the two hexadecimal digits of a byte.
pub fn push_byte_hex(out: &mut String, b: u8)
    ensures
        final(out)@ == old(out)@ + byte_hex(b),
{
    out.append(digit_str(b / 16));
    out.append(digit_str(b % 16));
}

/// Appends `n` in decimal.
pub fn push_dec(out: &mut String, n: u64)
    ensures
        final(out)@ == old(out)@ + dec_text(n as nat),
    decreases n,
{
    if n >= 10 {
        push_dec(out, n / 10);
    }
    out.append(digit_str((n % 10) as u8));
    proof {
        assert(dec_text(n as nat) == if n < 10 {
            seq![hex_char(n as nat)]
        } else {
            dec_text((n / 10) as nat).push(hex_char((n % 10) as nat))
        });
    }
}

/// The number of hexadecimal digits of `n`.
pub fn hex_len(n: u64) -> (r: u64)
    ensures
        r == hex_text(n as nat).len(),
        r <= n + 1,
    decreases n,
{
    if n < 16 {
        1
    } else {
        proof {
            assert(hex_text(n as nat) == hex_text((n / 16) as nat).push(hex_char((n % 16) as nat)));
        }
        hex_len(n / 16) + 1
    }
}

/// The number of decimal digits of `n`.
pub fn dec_len(n: u64) -> (r: u64)
    ensures
        r == dec_text(n as nat).len(),
        r <= n + 1,
    decreases n,
{
    if n < 10 {
        1
    } else {
        proof {
            assert(dec_text(n as nat) == dec_text((n / 10) as nat).push(hex_char((n % 10) as nat)));
        }
        dec_len(n / 10) + 1
    }
}

/// Appends `count` copies of the single character of `pad`.
pub fn push_fill(out: &mut String, pad: &str, count: usize)
    requires
        pad@.len() == 1,
    ensures
        final(out)@ == old(out)@ + fill(pad@[0], count as nat),
{
    let ghost start = out@;
    let mut i: usize = 0;
    while i < count
        invariant
            i <= count,
            pad@.len() == 1,
            out@ == start + fill(pad@[0], i as nat),
        decreases count - i,
    {
        out.append(pad);
        i = i + 1;
        proof {
            assert(fill(pad@[0], i as nat) == fill(pad@[0], (i - 1) as nat) + pad@);
        }
    }
}

/// Appends `n` in hexadecimal, zero-filled on the left to `width` digits.
pub fn push_hex_padded(out: &mut String, n: u64, width: usize)
    ensures
        final(out)@ == old(out)@ + pad_left(hex_text(n as nat), width as nat, '0'),
{
    let len = hex_len(n);
    let gap: usize = if len < width as u64 { width - len as usize } else { 0 };
    proof {
        reveal_strlit("0");
    }
    push_fill(out, "0", gap);
    push_hex(out, n);
}

/// Appends `n` in decimal, right-aligned with spaces in a column of `width`.
pub fn push_dec_padded(out: &mut String, n: u64, width: usize)
    ensures
        final(out)@ == old(out)@ + pad_left(dec_text(n as nat), width as nat, ' '),
{
    let len = dec_len(n);
    let gap: usize = if len < width as u64 { width - len as usize } else { 0 };
    proof {
        reveal_strlit(" ");
    }
    push_fill(out, " ", gap);
    push_dec(out, n);
}

/// Appends `s` right-aligned with spaces in a column of `width`.
pub fn push_right_aligned(out: &mut String, s: &str, width: usize)
    ensures
        final(out)@ == old(out)@ + pad_left(s@, width as nat, ' '),
{
    let len = s.unicode_len();
    let gap: usize = if len < width { width - len } else { 0 };
    proof {
        reveal_strlit(" ");
    }
    push_fill(out, " ", gap);
    out.append(s);
}

/// Appends `s` left-aligned with spaces in a column of `width`.
pub fn push_left_aligned(out: &mut String, s: &str, width: usize)
    ensures
        final(out)@ == old(out)@ + pad_right(s@, width as nat),
{
    let len = s.unicode_len();
    let gap: usize = if len < width { width - len } else { 0 };
    out.append(s);
    proof {
        reveal_strlit(" ");
    }
    push_fill(out, " ", gap);
    proof {
        assert(out@ == old(out)@ + s@ + fill(' ', gap as nat));
    }
}

} // verus!
