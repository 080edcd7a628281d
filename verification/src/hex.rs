//! Identifiers as lowercase hexadecimal text, and back.

use vstd::prelude::*;
use vstd::string::*;

verus! {

/// `String::push` appends one character to the end of the string.
pub assume_specification[ String::push ](s: &mut String, ch: char)
    ensures
        final(s)@ == old(s)@.push(ch),
;

/// The lowercase hexadecimal digit of a number below 16.
pub open spec fn hex_digit(n: u8) -> char {
    if n < 10 {
        ((48 + n) as u8) as char
    } else {
        ((87 + n) as u8) as char
    }
}

/// The hexadecimal text of a byte string: two lowercase digits for each
/// byte, the high half first.
pub open spec fn hex_view(bytes: Seq<u8>) -> Seq<char> {
    Seq::new(
        2 * bytes.len(),
        |i: int|
            if i % 2 == 0 {
                hex_digit(bytes[i / 2] / 16)
            } else {
                hex_digit(bytes[i / 2] % 16)
            },
    )
}

/// The number that a hexadecimal digit stands for, in either case.
pub open spec fn hex_value(c: char) -> Option<u8> {
    code_value(c as u32)
}

/// The number that the character with the given code stands for, where
/// that character is a hexadecimal digit.
pub open spec fn code_value(n: u32) -> Option<u8> {
    if 48 <= n <= 57 {
        Some((n - 48) as u8)
    } else if 97 <= n <= 102 {
        Some((n - 87) as u8)
    } else if 65 <= n <= 70 {
        Some((n - 55) as u8)
    } else {
        None
    }
}

/// Whether a text is the hexadecimal form of some byte string: an even
/// number of characters, each of them a hexadecimal digit.
pub open spec fn is_hex(s: Seq<char>) -> bool {
    s.len() % 2 == 0 && forall|i: int| 0 <= i < s.len() ==> (#[trigger] hex_value(s[i])) is Some
}

/// The byte string that a hexadecimal text stands for.
pub open spec fn unhex_view(s: Seq<char>) -> Seq<u8> {
    Seq::new(
        s.len() / 2,
        |i: int| (16 * hex_value(s[2 * i])->0 + hex_value(s[2 * i + 1])->0) as u8,
    )
}

fn digit(n: u8) -> (c: char)
    requires
        n < 16,
    ensures
        c == hex_digit(n),
{
    if n < 10 {
        (48 + n) as char
    } else {
        (87 + n) as char
    }
}

fn digit_value(b: u8) -> (r: Option<u8>)
    ensures
        r == code_value(b as u32),
        r is Some ==> r->0 < 16,
{
    if 48 <= b && b <= 57 {
        Some(b - 48)
    } else if 97 <= b && b <= 102 {
        Some(b - 87)
    } else if 65 <= b && b <= 70 {
        Some(b - 55)
    } else {
        None
    }
}

/// Writes a byte string as lowercase hexadecimal text.
pub fn hex(bytes: &[u8]) -> (s: String)
    ensures
        s@ == hex_view(bytes@),
{
    let mut s = String::new();
    let mut i: usize = 0;
    while i < bytes.len()
        invariant
            i <= bytes.len(),
            s@ == hex_view(bytes@.take(i as int)),
        decreases bytes.len() - i,
    {
        let b = bytes[i];
        s.push(digit(b / 16));
        s.push(digit(b % 16));
        assert(s@ =~= hex_view(bytes@.take(i + 1)));
        i += 1;
    }
    assert(bytes@.take(i as int) =~= bytes@);
    s
}

/// Reads hexadecimal text back into bytes. Text of odd length, or with a
/// character that is no hexadecimal digit, has no reading.
pub fn decode_hex(s: &str) -> (r: Option<Vec<u8>>)
    ensures
        r is Some <==> is_hex(s@),
        r is Some ==> r->0@ == unhex_view(s@),
{
    if !s.is_ascii() {
        proof {
            if is_hex(s@) {
                assert forall|i: int| 0 <= i < s@.len() implies '\0' <= #[trigger] s@[i]
                    <= '\u{7f}' by {
                    assert(hex_value(s@[i]) is Some);
                    lemma_char_code(s@[i]);
                }
                assert(is_ascii(s));
            }
        }
        return None;
    }
    proof {
        is_ascii_spec_bytes(s);
    }
    let text = s.as_bytes();
    assert(text@.len() == s@.len());
    assert forall|i: int| 0 <= i < s@.len() implies text@[i] as u32 == (#[trigger] s@[i]) as u32 by {
        assert('\0' <= s@[i] <= '\u{7f}');
        assert(text@[i] == s@[i] as u8);
        lemma_char_code(s@[i]);
    }
    if text.len() % 2 != 0 {
        return None;
    }
    let mut out: Vec<u8> = Vec::new();
    let mut i: usize = 0;
    while i < text.len()
        invariant
            i <= text.len(),
            i % 2 == 0,
            text@.len() % 2 == 0,
            text@.len() == s@.len(),
            forall|k: int| 0 <= k < s@.len() ==> text@[k] as u32 == (#[trigger] s@[k]) as u32,
            forall|k: int| 0 <= k < i ==> (#[trigger] hex_value(s@[k])) is Some,
            out@ == unhex_view(s@.take(i as int)),
        decreases text.len() - i,
    {
        let hi = digit_value(text[i]);
        let lo = digit_value(text[i + 1]);
        assert(hi == hex_value(s@[i as int]));
        assert(lo == hex_value(s@[i + 1]));
        match (hi, lo) {
            (Some(h), Some(l)) => {
                out.push(16 * h + l);
                assert(out@ =~= unhex_view(s@.take(i + 2)));
                i += 2;
            },
            _ => {
                return None;
            },
        }
    }
    assert(s@.take(i as int) =~= s@);
    Some(out)
}

/// Reading back what `hex` wrote gives the bytes that were written.
pub proof fn lemma_hex_round_trip(bytes: Seq<u8>)
    ensures
        is_hex(hex_view(bytes)),
        unhex_view(hex_view(bytes)) == bytes,
{
    let text = hex_view(bytes);
    assert forall|i: int| 0 <= i < text.len() implies (#[trigger] hex_value(text[i])) is Some by {
        lemma_digit_value(bytes[i / 2] / 16);
        lemma_digit_value(bytes[i / 2] % 16);
    }
    assert forall|i: int| 0 <= i < bytes.len() implies unhex_view(text)[i] == bytes[i] by {
        lemma_digit_value(bytes[i] / 16);
        lemma_digit_value(bytes[i] % 16);
        assert(text[2 * i] == hex_digit(bytes[i] / 16));
        assert(text[2 * i + 1] == hex_digit(bytes[i] % 16));
    }
    assert(unhex_view(text) =~= bytes);
}

/// A character is in the ASCII range exactly when its code is below 128.
proof fn lemma_char_code(c: char)
    ensures
        '\0' <= c,
        c <= '\u{7f}' <==> c as u32 <= 127,
        c <= '\u{7f}' ==> (c as u8) as u32 == c as u32,
{
}

/// A hexadecimal digit stands for the number it was made from.
pub proof fn lemma_digit_value(n: u8)
    requires
        n < 16,
    ensures
        hex_value(hex_digit(n)) == Some(n),
{
}

} // verus!
