//! Big-endian 32-bit words, as the length and checksum fields of a chunk are
//! written.
use vstd::prelude::*;

verus! {

/// The number that four bytes spell, most significant byte first.
pub open spec fn be_value(bytes: Seq<u8>) -> int {
    bytes[0] * 0x100_0000 + bytes[1] * 0x1_0000 + bytes[2] * 0x100 + bytes[3]
}

/// The four bytes that spell `value`, most significant byte first.
pub open spec fn be_bytes(value: u32) -> Seq<u8> {
    seq![
        (value / 0x100_0000) as u8,
        (value / 0x1_0000 % 0x100) as u8,
        (value / 0x100 % 0x100) as u8,
        (value % 0x100) as u8,
    ]
}

/// Reading back the bytes of a word gives the word.
pub proof fn lemma_value_of_bytes(value: u32)
    ensures
        be_bytes(value).len() == 4,
        be_value(be_bytes(value)) == value,
{
}

proof fn lemma_digits(b0: u8, b1: u8, b2: u8, b3: u8, value: u32)
    by (bit_vector)
    requires
        value == b0 * 0x100_0000 + b1 * 0x1_0000 + b2 * 0x100 + b3,
    ensures
        value / 0x100_0000 == b0,
        value / 0x1_0000 % 0x100 == b1,
        value / 0x100 % 0x100 == b2,
        value % 0x100 == b3,
{
}

/// Four bytes spell a number that fits in 32 bits, and writing that number
/// gives the four bytes back.
pub proof fn lemma_bytes_of_value(bytes: Seq<u8>)
    requires
        bytes.len() == 4,
    ensures
        0 <= be_value(bytes) <= u32::MAX,
        be_bytes(be_value(bytes) as u32) == bytes,
{
    lemma_digits(bytes[0], bytes[1], bytes[2], bytes[3], be_value(bytes) as u32);
    assert(be_bytes(be_value(bytes) as u32) =~= bytes);
}

/// Reads the word that starts at `at`.
pub fn read_u32(bytes: &[u8], at: usize) -> (value: u32)
    requires
        at + 4 <= bytes.len(),
    ensures
        value == be_value(bytes@.subrange(at as int, at + 4)),
{
    let b0: u32 = bytes[at] as u32;
    let b1: u32 = bytes[at + 1] as u32;
    let b2: u32 = bytes[at + 2] as u32;
    let b3: u32 = bytes[at + 3] as u32;
    b0 * 0x100_0000 + b1 * 0x1_0000 + b2 * 0x100 + b3
}

/// Appends the four bytes of `value` to `out`.
pub fn write_u32(out: &mut Vec<u8>, value: u32)
    ensures
        final(out)@ == old(out)@ + be_bytes(value),
{
    out.push((value / 0x100_0000) as u8);
    out.push((value / 0x1_0000 % 0x100) as u8);
    out.push((value / 0x100 % 0x100) as u8);
    out.push((value % 0x100) as u8);
    assert(out@ =~= old(out)@ + be_bytes(value));
}

} // verus!
