//! The single-byte Western code page used by the save format. Every byte
//! value has a defined Unicode mapping, so decoding is total and lossless:
//! bytes below 0x80 are ASCII, bytes from 0xA0 up coincide with their code
//! points, and the 0x80-0x9F range carries the code page's own assignments.

use vstd::prelude::*;

verus! {

/// Unicode character assigned to a byte in the 0x80-0x9F range.
pub open spec fn spec_decode_high(b: u8) -> char {
    if b == 0x80 {
        '\u{20AC}'
    } else if b == 0x82 {
        '\u{201A}'
    } else if b == 0x83 {
        '\u{0192}'
    } else if b == 0x84 {
        '\u{201E}'
    } else if b == 0x85 {
        '\u{2026}'
    } else if b == 0x86 {
        '\u{2020}'
    } else if b == 0x87 {
        '\u{2021}'
    } else if b == 0x88 {
        '\u{02C6}'
    } else if b == 0x89 {
        '\u{2030}'
    } else if b == 0x8A {
        '\u{0160}'
    } else if b == 0x8B {
        '\u{2039}'
    } else if b == 0x8C {
        '\u{0152}'
    } else if b == 0x8E {
        '\u{017D}'
    } else if b == 0x91 {
        '\u{2018}'
    } else if b == 0x92 {
        '\u{2019}'
    } else if b == 0x93 {
        '\u{201C}'
    } else if b == 0x94 {
        '\u{201D}'
    } else if b == 0x95 {
        '\u{2022}'
    } else if b == 0x96 {
        '\u{2013}'
    } else if b == 0x97 {
        '\u{2014}'
    } else if b == 0x98 {
        '\u{02DC}'
    } else if b == 0x99 {
        '\u{2122}'
    } else if b == 0x9A {
        '\u{0161}'
    } else if b == 0x9B {
        '\u{203A}'
    } else if b == 0x9C {
        '\u{0153}'
    } else if b == 0x9E {
        '\u{017E}'
    } else if b == 0x9F {
        '\u{0178}'
    } else {
        // 0x81, 0x8D, 0x8F, 0x90, 0x9D keep their code points.
        b as char
    }
}

/// Unicode character assigned to a byte under the code page. Total: every
/// byte value decodes to exactly one character.
pub open spec fn spec_decode_byte(b: u8) -> char {
    if b < 0x80 || b >= 0xA0 {
        b as char
    } else {
        spec_decode_high(b)
    }
}

/// Character sequence that a byte sequence decodes to; always the same
/// length as the input.
pub open spec fn spec_decode(s: Seq<u8>) -> Seq<char> {
    Seq::new(s.len(), |i: int| spec_decode_byte(s[i]))
}

/// Decode one byte to its character.
pub fn decode_byte(b: u8) -> (c: char)
    ensures
        c == spec_decode_byte(b),
{
    if b < 0x80 || b >= 0xA0 {
        b as char
    } else if b == 0x80 {
        '\u{20AC}'
    } else if b == 0x82 {
        '\u{201A}'
    } else if b == 0x83 {
        '\u{0192}'
    } else if b == 0x84 {
        '\u{201E}'
    } else if b == 0x85 {
        '\u{2026}'
    } else if b == 0x86 {
        '\u{2020}'
    } else if b == 0x87 {
        '\u{2021}'
    } else if b == 0x88 {
        '\u{02C6}'
    } else if b == 0x89 {
        '\u{2030}'
    } else if b == 0x8A {
        '\u{0160}'
    } else if b == 0x8B {
        '\u{2039}'
    } else if b == 0x8C {
        '\u{0152}'
    } else if b == 0x8E {
        '\u{017D}'
    } else if b == 0x91 {
        '\u{2018}'
    } else if b == 0x92 {
        '\u{2019}'
    } else if b == 0x93 {
        '\u{201C}'
    } else if b == 0x94 {
        '\u{201D}'
    } else if b == 0x95 {
        '\u{2022}'
    } else if b == 0x96 {
        '\u{2013}'
    } else if b == 0x97 {
        '\u{2014}'
    } else if b == 0x98 {
        '\u{02DC}'
    } else if b == 0x99 {
        '\u{2122}'
    } else if b == 0x9A {
        '\u{0161}'
    } else if b == 0x9B {
        '\u{203A}'
    } else if b == 0x9C {
        '\u{0153}'
    } else if b == 0x9E {
        '\u{017E}'
    } else if b == 0x9F {
        '\u{0178}'
    } else {
        b as char
    }
}

/// Decode a whole byte buffer to its character sequence.
pub fn decode_bytes(bytes: &Vec<u8>) -> (out: Vec<char>)
    ensures
        out@ == spec_decode(bytes@),
{
    let mut out: Vec<char> = Vec::new();
    let mut i: usize = 0;
    while i < bytes.len()
        invariant
            0 <= i <= bytes@.len(),
            out@.len() == i,
            forall|t: int| 0 <= t < i ==> out@[t] == spec_decode_byte(bytes@[t]),
        decreases bytes@.len() - i,
    {
        out.push(decode_byte(bytes[i]));
        i += 1;
    }
    assert(out@ =~= spec_decode(bytes@));
    out
}

/// Relies on std's `String::push`: appends the given character to the end
/// of the string.
#[verifier::external_body]
pub(crate) fn push_char(s: &mut String, c: char)
    ensures
        final(s)@ == old(s)@.push(c),
{
    s.push(c);
}

/// Build a `String` whose characters are exactly `cs`.
pub fn chars_to_string(cs: &Vec<char>) -> (s: String)
    ensures
        s@ == cs@,
{
    let mut s = String::new();
    let mut i: usize = 0;
    while i < cs.len()
        invariant
            0 <= i <= cs@.len(),
            s@ =~= cs@.subrange(0, i as int),
        decreases cs@.len() - i,
    {
        push_char(&mut s, cs[i]);
        assert(s@ =~= cs@.subrange(0, i + 1 as int));
        i += 1;
    }
    assert(s@ =~= cs@);
    s
}

/// Build a `String` from a range of a character buffer.
pub fn chars_range_to_string(cs: &Vec<char>, from: usize, to: usize) -> (s: String)
    requires
        from <= to <= cs@.len(),
    ensures
        s@ == cs@.subrange(from as int, to as int),
{
    let mut s = String::new();
    let mut i: usize = from;
    while i < to
        invariant
            from <= i <= to <= cs@.len(),
            s@ =~= cs@.subrange(from as int, i as int),
        decreases to - i,
    {
        push_char(&mut s, cs[i]);
        assert(s@ =~= cs@.subrange(from as int, i + 1 as int));
        i += 1;
    }
    s
}

/// Decoding never changes the length of the input, and decodes every byte:
/// the decode step is total and keeps one character per byte.
pub proof fn lemma_decode_total(s: Seq<u8>)
    ensures
        spec_decode(s).len() == s.len(),
        forall|i: int| 0 <= i < s.len() ==> spec_decode(s)[i] == spec_decode_byte(s[i]),
{
}

} // verus!
