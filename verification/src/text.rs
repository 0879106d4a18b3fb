//! Texts addressed by byte offsets.
//!
//! A line is a `str`; every offset in this crate counts bytes of its UTF-8
//! encoding, and a range of offsets names a piece of text only when both of
//! its ends fall between two characters.

use vstd::prelude::*;
use vstd::utf8::*;

verus! {

/// Number of bytes that `text` takes in UTF-8.
pub open spec fn byte_len(text: Seq<char>) -> nat {
    encode_utf8(text).len()
}

/// `from..to` is a range of byte offsets of `text` whose two ends lie between
/// characters (or at the ends of the text).
pub open spec fn valid_range(text: Seq<char>, from: int, to: int) -> bool {
    &&& 0 <= from <= to <= byte_len(text)
    &&& is_char_boundary(encode_utf8(text), from)
    &&& is_char_boundary(encode_utf8(text), to)
}

/// The characters of `text` whose bytes are those at `from..to`.
pub open spec fn text_at(text: Seq<char>, from: int, to: int) -> Seq<char> {
    decode_utf8(encode_utf8(text).subrange(from, to))
}

/// An offset that lies between characters of a text also lies between
/// characters of any prefix of the text that reaches it.
pub proof fn lemma_boundary_in_prefix(bytes: Seq<u8>, from: int, to: int)
    requires
        valid_utf8(bytes),
        0 <= from <= to <= bytes.len(),
        is_char_boundary(bytes, from),
        is_char_boundary(bytes, to),
    ensures
        valid_utf8(bytes.subrange(0, to)),
        is_char_boundary(bytes.subrange(0, to), from),
{
    let head = bytes.subrange(0, to);
    valid_utf8_split(bytes, to);
    if from < to {
        is_char_boundary_iff_not_is_continuation_byte(bytes, from);
        is_char_boundary_iff_not_is_continuation_byte(head, from);
    } else {
        is_char_boundary_start_end_of_seq(head);
    }
}

/// The text at a valid range has the bytes of that range.
pub proof fn lemma_text_at_bytes(text: Seq<char>, from: int, to: int)
    requires
        valid_range(text, from, to),
    ensures
        encode_utf8(text_at(text, from, to)) == encode_utf8(text).subrange(from, to),
        byte_len(text_at(text, from, to)) == to - from,
{
    let bytes = encode_utf8(text);
    let head = bytes.subrange(0, to);
    encode_utf8_valid_utf8(text);
    lemma_boundary_in_prefix(bytes, from, to);
    valid_utf8_split(head, from);
    assert(head.subrange(from, head.len() as int) =~= bytes.subrange(from, to));
    decode_utf8_encode_utf8(bytes.subrange(from, to));
}

/// An ASCII byte of a text starts a character.
pub proof fn lemma_ascii_starts_char(text: Seq<char>, at: int)
    requires
        0 <= at < byte_len(text),
        encode_utf8(text)[at] < 0x80,
    ensures
        is_char_boundary(encode_utf8(text), at),
{
    encode_utf8_valid_utf8(text);
    is_char_boundary_iff_not_is_continuation_byte(encode_utf8(text), at);
}

/// An ASCII byte that starts a character is the whole character: the next
/// character starts right behind it.
pub proof fn lemma_ascii_ends_char(text: Seq<char>, at: int)
    requires
        0 <= at < byte_len(text),
        encode_utf8(text)[at] < 0x80,
    ensures
        is_char_boundary(encode_utf8(text), at + 1),
{
    let bytes = encode_utf8(text);
    encode_utf8_valid_utf8(text);
    lemma_ascii_starts_char(text, at);
    if at + 1 == bytes.len() {
        is_char_boundary_start_end_of_seq(bytes);
    } else {
        let tail = bytes.subrange(at, bytes.len() as int);
        valid_utf8_split(bytes, at);
        assert(tail[0] == bytes[at]);
        assert(is_char_boundary(tail, 1)) by {
            reveal_with_fuel(is_char_boundary, 2);
        }
        is_char_boundary_iff_not_is_continuation_byte(tail, 1);
        assert(tail[1] == bytes[at + 1]);
        is_char_boundary_iff_not_is_continuation_byte(bytes, at + 1);
    }
}

/// A range within a piece of a text is a range of the text, and names the
/// same characters.
pub proof fn lemma_text_at_nested(
    text: Seq<char>,
    from: int,
    to: int,
    inner_from: int,
    inner_to: int,
)
    requires
        valid_range(text, from, to),
        valid_range(text_at(text, from, to), inner_from, inner_to),
    ensures
        valid_range(text, from + inner_from, from + inner_to),
        text_at(text_at(text, from, to), inner_from, inner_to) == text_at(
            text,
            from + inner_from,
            from + inner_to,
        ),
{
    let bytes = encode_utf8(text);
    let piece = text_at(text, from, to);
    let inner = encode_utf8(piece);
    lemma_text_at_bytes(text, from, to);
    encode_utf8_valid_utf8(text);
    encode_utf8_valid_utf8(piece);
    if inner_from < inner.len() {
        is_char_boundary_iff_not_is_continuation_byte(inner, inner_from);
        is_char_boundary_iff_not_is_continuation_byte(bytes, from + inner_from);
    }
    if inner_to < inner.len() {
        is_char_boundary_iff_not_is_continuation_byte(inner, inner_to);
        is_char_boundary_iff_not_is_continuation_byte(bytes, from + inner_to);
    }
    assert(inner.subrange(inner_from, inner_to) =~= bytes.subrange(
        from + inner_from,
        from + inner_to,
    ));
}

/// Length of `text` in bytes.
pub fn len(text: &str) -> (n: usize)
    ensures
        n == byte_len(text@),
{
    text.as_bytes().len()
}

/// The piece of `text` at the byte range `from..to`, when that range is valid.
pub fn slice<'a>(text: &'a str, from: usize, to: usize) -> (part: Option<&'a str>)
    ensures
        part is Some <==> valid_range(text@, from as int, to as int),
        part is Some ==> part.unwrap()@ == text_at(text@, from as int, to as int),
        part is Some ==> encode_utf8(part.unwrap()@) == encode_utf8(text@).subrange(
            from as int,
            to as int,
        ),
{
    if from <= to && to <= len(text) && text.is_char_boundary(from) && text.is_char_boundary(to) {
        proof {
            encode_utf8_valid_utf8(text@);
            lemma_boundary_in_prefix(encode_utf8(text@), from as int, to as int);
        }
        let (head, _) = text.split_at(to);
        let (_, part) = head.split_at(from);
        proof {
            assert(encode_utf8(part@) =~= encode_utf8(text@).subrange(from as int, to as int));
            encode_utf8_decode_utf8(part@);
        }
        Some(part)
    } else {
        None
    }
}

/// Whether `c` is white space, as `char::is_whitespace` tells it.
pub uninterp spec fn is_white_space(c: char) -> bool;

/// `char::is_whitespace` of std: true for the characters that Unicode gives
/// the property `White_Space`. Not proved; the contract only gives the
/// answer its name.
pub assume_specification[ char::is_whitespace ](c: char) -> (white: bool)
    ensures
        white == is_white_space(c),
;

/// `text` is empty or holds white space only.
pub open spec fn blank(text: Seq<char>) -> bool {
    forall|i: int| 0 <= i < text.len() ==> is_white_space(#[trigger] text[i])
}

/// Whether `text` is empty or holds white space only.
pub fn is_blank(text: &str) -> (b: bool)
    ensures
        b == blank(text@),
{
    for c in it: text.chars()
        invariant
            it.seq() == text@,
            forall|i: int| 0 <= i < it.index() ==> is_white_space(#[trigger] text@[i]),
    {
        if !c.is_whitespace() {
            return false;
        }
    }
    true
}

/// The bytes of `text` begin with the bytes of `prefix`.
pub open spec fn begins_with(text: Seq<char>, prefix: Seq<char>) -> bool {
    encode_utf8(prefix).is_prefix_of(encode_utf8(text))
}

/// Whether `text` begins with `prefix`.
pub fn starts_with(text: &str, prefix: &str) -> (b: bool)
    ensures
        b == begins_with(text@, prefix@),
{
    let hay = text.as_bytes();
    let needle = prefix.as_bytes();
    if needle.len() > hay.len() {
        return false;
    }
    let mut i: usize = 0;
    while i < needle.len()
        invariant
            needle@ == encode_utf8(prefix@),
            hay@ == encode_utf8(text@),
            i <= needle.len() <= hay.len(),
            forall|k: int| 0 <= k < i ==> hay@[k] == needle@[k],
        decreases needle.len() - i,
    {
        if hay[i] != needle[i] {
            return false;
        }
        i += 1;
    }
    true
}

/// Offset of the first byte equal to `wanted` at or behind `from`.
pub open spec fn find_byte(bytes: Seq<u8>, wanted: u8, from: int) -> Option<int>
    decreases bytes.len() - from,
{
    if from < 0 || from >= bytes.len() {
        None
    } else if bytes[from] == wanted {
        Some(from)
    } else {
        find_byte(bytes, wanted, from + 1)
    }
}

/// A decimal digit in ASCII.
pub open spec fn is_digit(byte: u8) -> bool {
    0x30 <= byte <= 0x39
}

/// The number that a run of decimal digits writes.
pub open spec fn digits_value(digits: Seq<u8>) -> nat
    decreases digits.len(),
{
    if digits.len() == 0 {
        0
    } else {
        digits_value(digits.drop_last()) * 10 + (digits.last() - 0x30) as nat
    }
}

/// The digits of a number text: the text without a leading `+`.
pub open spec fn unsigned_part(bytes: Seq<u8>) -> Seq<u8> {
    if bytes.len() > 0 && bytes[0] == 0x2b {
        bytes.drop_first()
    } else {
        bytes
    }
}

/// The number that `text` writes in decimal: an optional `+`, then one digit
/// or more and nothing else, with a value that fits 32 bits.
pub open spec fn decimal_u32(text: Seq<char>) -> Option<u32> {
    let digits = unsigned_part(encode_utf8(text));
    if digits.len() > 0 && (forall|i: int| 0 <= i < digits.len() ==> is_digit(#[trigger] digits[i]))
        && digits_value(digits) <= u32::MAX {
        Some(digits_value(digits) as u32)
    } else {
        None
    }
}

/// A run of digits is worth at least as much as any of its prefixes.
pub proof fn lemma_digits_value_grows(digits: Seq<u8>, n: int)
    requires
        0 <= n <= digits.len(),
        forall|i: int| 0 <= i < digits.len() ==> is_digit(#[trigger] digits[i]),
    ensures
        digits_value(digits.take(n)) <= digits_value(digits),
    decreases digits.len() - n,
{
    if n == digits.len() {
        assert(digits.take(n) =~= digits);
    } else {
        lemma_digits_value_grows(digits, n + 1);
        assert(digits.take(n + 1).drop_last() =~= digits.take(n));
        assert(is_digit(digits[n]));
        assert(digits.take(n + 1).last() == digits[n]);
    }
}

/// Reads `text` as a decimal number of 32 bits.
pub fn parse_u32(text: &str) -> (number: Option<u32>)
    ensures
        number == decimal_u32(text@),
{
    let bytes = text.as_bytes();
    let n = bytes.len();
    let start: usize = if n > 0 && bytes[0] == 0x2b { 1 } else { 0 };
    if start == n {
        return None;
    }
    let ghost digits = unsigned_part(encode_utf8(text@));
    assert(digits =~= bytes@.subrange(start as int, n as int));
    let mut value: u32 = 0;
    let mut i: usize = start;
    while i < n
        invariant
            bytes@ == encode_utf8(text@),
            n == bytes@.len(),
            digits == bytes@.subrange(start as int, n as int),
            digits == unsigned_part(encode_utf8(text@)),
            start <= i <= n,
            forall|k: int| 0 <= k < i - start ==> is_digit(#[trigger] digits[k]),
            value == digits_value(digits.take(i - start)),
        decreases n - i,
    {
        let byte = bytes[i];
        assert(byte == digits[i - start]);
        if byte < 0x30 || byte > 0x39 {
            assert(!is_digit(digits[i - start]));
            return None;
        }
        let digit: u32 = (byte - 0x30) as u32;
        proof {
            assert(digits.take(i - start + 1).drop_last() =~= digits.take(i - start));
            assert(digits.take(i - start + 1).last() == byte);
            if forall|k: int| 0 <= k < digits.len() ==> is_digit(#[trigger] digits[k]) {
                lemma_digits_value_grows(digits, i - start + 1);
            }
        }
        if value > (u32::MAX - digit) / 10 {
            assert(digits_value(digits.take(i - start + 1)) > u32::MAX);
            return None;
        }
        value = value * 10 + digit;
        i += 1;
    }
    proof {
        assert(digits.take(n - start) =~= digits);
    }
    Some(value)
}

} // verus!
