//! Big-endian integers and length-prefixed fields, the building blocks of the
//! canonical transcripts that proofs are computed over.

use vstd::prelude::*;

use crate::text::utf8_bytes;

verus! {

pub open spec fn be_u16(v: u16) -> Seq<u8> {
    seq![(v >> 8u16) as u8, v as u8]
}

pub open spec fn be_u32(v: u32) -> Seq<u8> {
    seq![(v >> 24u32) as u8, (v >> 16u32) as u8, (v >> 8u32) as u8, v as u8]
}

pub open spec fn be_u64(v: u64) -> Seq<u8> {
    seq![
        (v >> 56u64) as u8,
        (v >> 48u64) as u8,
        (v >> 40u64) as u8,
        (v >> 32u64) as u8,
        (v >> 24u64) as u8,
        (v >> 16u64) as u8,
        (v >> 8u64) as u8,
        v as u8,
    ]
}

/// The length that prefixes a field: its byte count, saturated at `u32::MAX`.
pub open spec fn field_len(n: nat) -> u32 {
    if n <= u32::MAX {
        n as u32
    } else {
        u32::MAX
    }
}

/// A field written as its 4-byte big-endian length followed by its bytes.
pub open spec fn length_prefixed(value: Seq<u8>) -> Seq<u8> {
    be_u32(field_len(value.len())) + value
}

/// A text field: the length-prefixed UTF-8 bytes of the text.
pub open spec fn text_field(value: Seq<char>) -> Seq<u8> {
    length_prefixed(utf8_bytes(value))
}

pub fn push_u16(output: &mut Vec<u8>, value: u16)
    ensures
        final(output)@ == old(output)@ + be_u16(value),
{
    output.push((value >> 8u16) as u8);
    output.push(value as u8);
    assert(final(output)@ =~= old(output)@ + be_u16(value));
}

pub fn push_u32(output: &mut Vec<u8>, value: u32)
    ensures
        final(output)@ == old(output)@ + be_u32(value),
{
    output.push((value >> 24u32) as u8);
    output.push((value >> 16u32) as u8);
    output.push((value >> 8u32) as u8);
    output.push(value as u8);
    assert(final(output)@ =~= old(output)@ + be_u32(value));
}

pub fn push_u64(output: &mut Vec<u8>, value: u64)
    ensures
        final(output)@ == old(output)@ + be_u64(value),
{
    output.push((value >> 56u64) as u8);
    output.push((value >> 48u64) as u8);
    output.push((value >> 40u64) as u8);
    output.push((value >> 32u64) as u8);
    output.push((value >> 24u64) as u8);
    output.push((value >> 16u64) as u8);
    output.push((value >> 8u64) as u8);
    output.push(value as u8);
    assert(final(output)@ =~= old(output)@ + be_u64(value));
}

pub fn push_raw(output: &mut Vec<u8>, value: &[u8])
    ensures
        final(output)@ == old(output)@ + value@,
{
    output.extend_from_slice(value);
}

pub fn push_bytes(output: &mut Vec<u8>, value: &[u8])
    ensures
        final(output)@ == old(output)@ + length_prefixed(value@),
{
    let length: u32 = if value.len() <= 0xffff_ffffusize {
        value.len() as u32
    } else {
        0xffff_ffffu32
    };
    push_u32(output, length);
    push_raw(output, value);
    assert(final(output)@ =~= old(output)@ + length_prefixed(value@));
}

pub fn push_string(output: &mut Vec<u8>, value: &str)
    ensures
        final(output)@ == old(output)@ + text_field(value@),
{
    push_bytes(output, value.as_bytes());
}

/// `String::push` appends one character to the end of the string.
pub assume_specification[ String::push ](s: &mut String, ch: char)
    ensures
        final(s)@ == old(s)@.push(ch),
;

pub open spec fn hex_digit(n: u8) -> char {
    if n < 10 {
        (n + 48) as char
    } else {
        (n + 87) as char
    }
}

/// Lower-case hexadecimal: two digits per byte, high nibble first.
pub open spec fn hex_spec(bytes: Seq<u8>) -> Seq<char>
    decreases bytes.len(),
{
    if bytes.len() == 0 {
        seq![]
    } else {
        hex_spec(bytes.drop_last()) + seq![
            hex_digit(bytes.last() / 16),
            hex_digit(bytes.last() % 16),
        ]
    }
}

pub(crate) fn hex_char(n: u8) -> (c: char)
    requires
        n < 16,
    ensures
        c == hex_digit(n),
{
    if n < 10 {
        (n + 48) as char
    } else {
        (n + 87) as char
    }
}

pub fn hex_encode(bytes: &[u8]) -> (r: String)
    ensures
        r@ == hex_spec(bytes@),
{
    let mut output = String::new();
    let mut i: usize = 0;
    while i < bytes.len()
        invariant
            i <= bytes@.len(),
            output@ == hex_spec(bytes@.subrange(0, i as int)),
        decreases bytes@.len() - i,
    {
        let byte = bytes[i];
        let hi = hex_char(byte / 16);
        let lo = hex_char(byte % 16);
        output.push(hi);
        output.push(lo);
        assert(bytes@.subrange(0, i + 1).drop_last() =~= bytes@.subrange(0, i as int));
        assert(output@ =~= hex_spec(bytes@.subrange(0, i + 1)));
        i += 1;
    }
    assert(bytes@.subrange(0, bytes@.len() as int) =~= bytes@);
    output
}

} // verus!
