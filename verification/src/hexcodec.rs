//! Hexadecimal text: what it means for bytes to be written as hex digits and
//! for hex digits to be read back as bytes.
//!
//! Encoding always produces lowercase digits; decoding accepts both cases.

use vstd::prelude::*;
use vstd::utf8::*;

verus! {

/// The lowercase hex digit for a value below 16.
pub open spec fn hex_digit(nibble: u8) -> char
    recommends
        nibble < 16,
{
    if nibble < 10 {
        (0x30 + nibble) as char
    } else {
        (0x61 + (nibble - 10)) as char
    }
}

/// The lowercase hex rendering of `data`: two digits per byte, high nibble first.
pub open spec fn hex_text(data: Seq<u8>) -> Seq<char> {
    Seq::new(
        2 * data.len(),
        |i: int|
            if i % 2 == 0 {
                hex_digit(data[i / 2] >> 4)
            } else {
                hex_digit(data[i / 2] & 0x0f)
            },
    )
}

/// The value of an ASCII hex digit of either case, if `c` is one.
pub open spec fn hex_value(c: u8) -> Option<u8> {
    if 0x30 <= c <= 0x39 {
        Some((c - 0x30) as u8)
    } else if 0x61 <= c <= 0x66 {
        Some((c - 0x61 + 10) as u8)
    } else if 0x41 <= c <= 0x46 {
        Some((c - 0x41 + 10) as u8)
    } else {
        None
    }
}

/// True when every byte of `text` is an ASCII hex digit.
pub open spec fn is_hex(text: Seq<u8>) -> bool {
    forall|i: int| 0 <= i < text.len() ==> (#[trigger] hex_value(text[i])) is Some
}

/// The bytes written by the hex digits `text`, two digits per byte.
pub open spec fn hex_bytes(text: Seq<u8>) -> Seq<u8>
    recommends
        text.len() % 2 == 0,
        is_hex(text),
{
    Seq::new(
        text.len() / 2,
        |i: int| hex_value(text[2 * i])->0 << 4 | hex_value(text[2 * i + 1])->0,
    )
}

/// A digit produced by `hex_digit` is ASCII and reads back as the nibble it
/// was made from.
pub proof fn lemma_hex_digit_value(nibble: u8)
    requires
        nibble < 16,
    ensures
        hex_digit(nibble) as u32 <= 0x7f,
        hex_value(hex_digit(nibble) as u8) == Some(nibble),
{
}

/// The high and low nibble of a byte put the byte back together.
pub proof fn lemma_nibbles(b: u8)
    ensures
        b >> 4 < 16,
        b & 0x0f < 16,
        (b >> 4) << 4 | (b & 0x0f) == b,
{
    assert(b >> 4 < 16) by (bit_vector);
    assert(b & 0x0f < 16) by (bit_vector);
    assert((b >> 4) << 4 | (b & 0x0f) == b) by (bit_vector);
}

/// Hex text is ASCII, so its UTF-8 encoding has one byte per digit.
pub proof fn lemma_hex_text_utf8(data: Seq<u8>)
    ensures
        is_ascii_chars(hex_text(data)),
        encode_utf8(hex_text(data)).len() == 2 * data.len(),
        forall|i: int|
            0 <= i < 2 * data.len() ==> #[trigger] encode_utf8(hex_text(data))[i] == hex_text(
                data,
            )[i] as u8,
{
    let text = hex_text(data);
    assert forall|i: int| 0 <= i < text.len() implies '\0' <= #[trigger] text[i] <= '\u{7f}' by {
        lemma_nibbles(data[i / 2]);
        lemma_hex_digit_value(data[i / 2] >> 4);
        lemma_hex_digit_value(data[i / 2] & 0x0f);
    }
    is_ascii_chars_encode_utf8(text);
}

/// Encoding then decoding gives the bytes back: the hex rendering of any byte
/// string consists of hex digits only, and those digits spell the same bytes.
pub proof fn lemma_hex_round_trip(data: Seq<u8>)
    ensures
        is_hex(encode_utf8(hex_text(data))),
        hex_bytes(encode_utf8(hex_text(data))) == data,
{
    let text = hex_text(data);
    let raw = encode_utf8(text);
    lemma_hex_text_utf8(data);
    assert forall|i: int| 0 <= i < raw.len() implies (#[trigger] hex_value(raw[i])) is Some by {
        lemma_nibbles(data[i / 2]);
        lemma_hex_digit_value(data[i / 2] >> 4);
        lemma_hex_digit_value(data[i / 2] & 0x0f);
        assert(raw[i] == text[i] as u8);
    }
    assert forall|k: int| 0 <= k < data.len() implies hex_bytes(raw)[k] == data[k] by {
        lemma_nibbles(data[k]);
        lemma_hex_digit_value(data[k] >> 4);
        lemma_hex_digit_value(data[k] & 0x0f);
        assert(raw[2 * k] == text[2 * k] as u8);
        assert(raw[2 * k + 1] == text[2 * k + 1] as u8);
        assert((2 * k) / 2 == k && (2 * k) % 2 == 0);
        assert((2 * k + 1) / 2 == k && (2 * k + 1) % 2 == 1);
    }
    assert(hex_bytes(raw) =~= data);
}

} // verus!
