//! Where windows may be cut, told by the bytes alone.
use vstd::prelude::*;
use vstd::utf8::valid_utf8;

use super::{character_start, floor_of, lemma_character_start, spans_over};
use crate::search::reader::lines::{unit_of, unit_size};
use crate::search::reader::DetectedEncoding;

verus! {

/// One character: valid text of which no shorter stretch is.
pub open spec fn one_character(bytes: Seq<u8>) -> bool {
    &&& bytes.len() > 0
    &&& valid_utf8(bytes)
    &&& forall|n: int| 0 < n < bytes.len() ==> !#[trigger] valid_utf8(bytes.subrange(0, n))
}

/// A place inside a character: within the bytes of one, or between two surrogates of a
/// pair, or not between units at all.
pub open spec fn inside_character(bytes: Seq<u8>, encoding: DetectedEncoding, p: int) -> bool {
    match encoding {
        DetectedEncoding::Utf8 { .. } => exists|s: int, e: int|
            0 <= s < p < e <= bytes.len() && one_character(#[trigger] bytes.subrange(s, e)),
        _ => p % 2 != 0 || (p >= 2 && p + 2 <= bytes.len() && 0xd800 <= unit_of(
            bytes,
            encoding,
            p - 2,
        ) <= 0xdbff && 0xdc00 <= unit_of(bytes, encoding, p) <= 0xdfff),
    }
}

/// A place between a carriage return and a line feed.
pub open spec fn inside_crlf(bytes: Seq<u8>, encoding: DetectedEncoding, p: int) -> bool {
    let w = unit_size(encoding);
    w <= p && p + w <= bytes.len() && unit_of(bytes, encoding, p - w) == 13 && unit_of(
        bytes,
        encoding,
        p,
    ) == 10
}

/// How long the first character is, by its first byte.
spec fn first_width(byte: u8) -> int {
    if byte < 0xc0 {
        1
    } else if byte < 0xe0 {
        2
    } else if byte < 0xf0 {
        3
    } else {
        4
    }
}

proof fn lemma_short_leads(lead: u8, next: u8)
    requires
        0xc0 <= lead <= 0xc1,
    ensures
        vstd::utf8::codepoint_width_2(lead, next) < 0x80,
{
    assert((((lead & 0x1f) as u32) << 6) | ((next & 0x3f) as u32) < 0x80) by (bit_vector)
        requires
            0xc0 <= lead <= 0xc1,
    ;
}

proof fn lemma_long_leads(lead: u8, b: u8, c: u8, d: u8)
    requires
        0xf5 <= lead <= 0xf7,
    ensures
        vstd::utf8::codepoint_width_4(lead, b, c, d) > 0x10ffff,
{
    assert((((lead & 0x07) as u32) << 18) | (((b & 0x3f) as u32) << 12) | (((c & 0x3f) as u32) << 6)
        | ((d & 0x3f) as u32) > 0x10ffff) by (bit_vector)
        requires
            0xf5 <= lead <= 0xf7,
    ;
}

/// A character has the length that its first byte tells, and goes on with continuation
/// bytes.
proof fn lemma_character(bytes: Seq<u8>)
    requires
        one_character(bytes),
    ensures
        bytes.len() == first_width(bytes[0]),
        bytes.len() == 2 ==> 0xc2 <= bytes[0],
        bytes.len() == 4 ==> bytes[0] <= 0xf4,
        forall|n: int| 1 <= n < bytes.len() ==> 0x80 <= #[trigger] bytes[n] <= 0xbf,
{
    reveal_with_fuel(valid_utf8, 2);
    let n = vstd::utf8::length_of_first_scalar(bytes);
    if n < bytes.len() {
        let first = bytes.subrange(0, n);
        lemma_prefix(bytes, n);
        assert(valid_utf8(first));
    }
    if bytes.len() == 2 && bytes[0] < 0xc2 {
        lemma_short_leads(bytes[0], bytes[1]);
    }
    if bytes.len() == 4 && bytes[0] > 0xf4 {
        lemma_long_leads(bytes[0], bytes[1], bytes[2], bytes[3]);
    }
}

proof fn lemma_prefix(bytes: Seq<u8>, n: int)
    requires
        vstd::utf8::valid_first_scalar(bytes),
        n == vstd::utf8::length_of_first_scalar(bytes),
        n <= bytes.len(),
    ensures
        valid_utf8(bytes.subrange(0, n)),
{
    reveal_with_fuel(valid_utf8, 2);
    let first = bytes.subrange(0, n);
    assert(vstd::utf8::valid_first_scalar(first));
    assert(vstd::utf8::pop_first_scalar(first).len() == 0);
}

/// Valid text that is as long as its first byte tells is one character.
proof fn lemma_is_character(bytes: Seq<u8>)
    requires
        bytes.len() > 0,
        valid_utf8(bytes),
        bytes.len() == first_width(bytes[0]),
    ensures
        one_character(bytes),
{
    reveal_with_fuel(valid_utf8, 2);
    assert forall|n: int| 0 < n < bytes.len() implies !#[trigger] valid_utf8(
        bytes.subrange(0, n),
    ) by {
        let first = bytes.subrange(0, n);
        assert(first[0] == bytes[0]);
    }
}

proof fn lemma_start(bytes: Seq<u8>, first: int, offset: int)
    requires
        0 <= first <= offset < bytes.len(),
    ensures
        ({
            let at = character_start(bytes, first, offset);
            &&& first <= at <= offset
            &&& at < offset ==> spans_over(bytes, at, offset)
            &&& forall|s: int| first <= s < at ==> !#[trigger] spans_over(bytes, s, offset)
        }),
    decreases offset - first,
{
    lemma_character_start(bytes, first, offset);
    if first < offset && !spans_over(bytes, first, offset) {
        lemma_start(bytes, first + 1, offset);
    }
}

proof fn lemma_spanned(bytes: Seq<u8>, s: int, e: int, offset: int)
    requires
        0 <= s < offset < e <= bytes.len(),
        one_character(bytes.subrange(s, e)),
    ensures
        spans_over(bytes, s, offset),
        e - s <= 4,
{
    let c = bytes.subrange(s, e);
    lemma_character(c);
    assert(c[0] == bytes[s]);
}

/// A place that was moved back splits neither a character nor a CRLF, and it was moved
/// no further than by four bytes. A place that splits nothing is not moved.
pub proof fn floors_split_nothing(bytes: Seq<u8>, encoding: DetectedEncoding, offset: int)
    requires
        0 <= offset < bytes.len(),
    ensures
        ({
            let at = floor_of(bytes, encoding, offset);
            &&& offset - 4 <= at <= offset
            &&& 0 <= at
            &&& !inside_character(bytes, encoding, at)
            &&& !inside_crlf(bytes, encoding, at)
            &&& !inside_character(bytes, encoding, offset) && !inside_crlf(bytes, encoding, offset)
                ==> at == offset
        }),
{
    if encoding is Utf8 {
        let first = if offset < 3 {
            0
        } else {
            offset - 3
        };
        let start = character_start(bytes, first, offset);
        let at = floor_of(bytes, encoding, offset);
        lemma_start(bytes, first, offset);
        if start < offset {
            let width: int = if bytes[start] <= 0xdf {
                2
            } else if bytes[start] <= 0xef {
                3
            } else {
                4
            };
            let c = bytes.subrange(start, start + width);
            assert(c[0] == bytes[start]);
            lemma_is_character(c);
            lemma_character(c);
            assert(inside_character(bytes, encoding, offset));
        }
        assert forall|s: int, e: int| 0 <= s < at < e <= bytes.len() implies !one_character(
            #[trigger] bytes.subrange(s, e),
        ) by {
            let c = bytes.subrange(s, e);
            if one_character(c) {
                lemma_character(c);
                assert(c[at - s] == bytes[at]);
                lemma_spanned(bytes, s, e, at);
            }
        }
    }
}

} // verus!
