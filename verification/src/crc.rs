//! CRC-32 as used by PNG: the reflected polynomial `0xEDB88320`, with the
//! register preset to all ones and complemented at the end.
use vstd::prelude::*;

verus! {

/// The register after one message bit has been shifted out.
pub open spec fn shift_bit(register: u32) -> u32 {
    if register & 1 == 1 {
        (register >> 1) ^ 0xEDB8_8320u32
    } else {
        register >> 1
    }
}

/// The register after `count` message bits have been shifted out.
pub open spec fn shift_bits(register: u32, count: nat) -> u32
    decreases count,
{
    if count == 0 {
        register
    } else {
        shift_bit(shift_bits(register, (count - 1) as nat))
    }
}

/// The register after the byte `b` has been fed into it.
pub open spec fn feed_byte(register: u32, b: u8) -> u32 {
    shift_bits(register ^ (b as u32), 8)
}

/// The register after all of `bytes` have been fed into it, first byte first.
pub open spec fn feed(register: u32, bytes: Seq<u8>) -> u32
    decreases bytes.len(),
{
    if bytes.len() == 0 {
        register
    } else {
        feed_byte(feed(register, bytes.drop_last()), bytes.last())
    }
}

/// The CRC-32 checksum of `bytes`.
pub open spec fn crc32(bytes: Seq<u8>) -> u32 {
    feed(0xFFFF_FFFFu32, bytes) ^ 0xFFFF_FFFFu32
}

/// Feeding `front + back` is feeding `front` and then `back`.
pub proof fn lemma_feed_concat(register: u32, front: Seq<u8>, back: Seq<u8>)
    ensures
        feed(register, front + back) == feed(feed(register, front), back),
    decreases back.len(),
{
    if back.len() == 0 {
        assert(front + back =~= front);
    } else {
        lemma_feed_concat(register, front, back.drop_last());
        assert((front + back).drop_last() =~= front + back.drop_last());
    }
}

proof fn lemma_shift_bit_injective(a: u32, b: u32)
    by (bit_vector)
    requires
        shift_bit(a) == shift_bit(b),
    ensures
        a == b,
{
}

proof fn lemma_shift_bits_injective(a: u32, b: u32, count: nat)
    requires
        shift_bits(a, count) == shift_bits(b, count),
    ensures
        a == b,
    decreases count,
{
    if count > 0 {
        lemma_shift_bit_injective(
            shift_bits(a, (count - 1) as nat),
            shift_bits(b, (count - 1) as nat),
        );
        lemma_shift_bits_injective(a, b, (count - 1) as nat);
    }
}

/// Two registers that differ still differ after the same bytes have been fed
/// into both.
pub proof fn lemma_feed_keeps_apart(a: u32, b: u32, bytes: Seq<u8>)
    requires
        a != b,
    ensures
        feed(a, bytes) != feed(b, bytes),
    decreases bytes.len(),
{
    if bytes.len() > 0 {
        lemma_feed_keeps_apart(a, b, bytes.drop_last());
        let x = feed(a, bytes.drop_last());
        let y = feed(b, bytes.drop_last());
        let last = bytes.last();
        assert((x ^ (last as u32)) != (y ^ (last as u32))) by (bit_vector)
            requires
                x != y,
        ;
        if feed_byte(x, last) == feed_byte(y, last) {
            lemma_shift_bits_injective(x ^ (last as u32), y ^ (last as u32), 8);
        }
    }
}

/// A register moves to different values on different bytes.
pub proof fn lemma_feed_byte_tells_bytes_apart(register: u32, x: u8, y: u8)
    requires
        x != y,
    ensures
        feed_byte(register, x) != feed_byte(register, y),
{
    assert((register ^ (x as u32)) != (register ^ (y as u32))) by (bit_vector)
        requires
            x != y,
    ;
    if feed_byte(register, x) == feed_byte(register, y) {
        lemma_shift_bits_injective(register ^ (x as u32), register ^ (y as u32), 8);
    }
}

/// CRC-32 detects every change of a single byte: the message with the byte at
/// `i` replaced by a different one has a different checksum.
pub proof fn lemma_crc32_detects_byte_change(bytes: Seq<u8>, i: int, b: u8)
    requires
        0 <= i < bytes.len(),
        b != bytes[i],
    ensures
        crc32(bytes.update(i, b)) != crc32(bytes),
{
    let init = 0xFFFF_FFFFu32;
    let front = bytes.take(i);
    let back = bytes.skip(i + 1);
    let before = feed(init, front);
    assert(bytes =~= (front + seq![bytes[i]]) + back);
    assert(bytes.update(i, b) =~= (front + seq![b]) + back);
    assert(feed(init, front + seq![bytes[i]]) == feed_byte(before, bytes[i])) by {
        assert((front + seq![bytes[i]]).drop_last() =~= front);
    }
    assert(feed(init, front + seq![b]) == feed_byte(before, b)) by {
        assert((front + seq![b]).drop_last() =~= front);
    }
    lemma_feed_byte_tells_bytes_apart(before, b, bytes[i]);
    lemma_feed_concat(init, front + seq![bytes[i]], back);
    lemma_feed_concat(init, front + seq![b], back);
    lemma_feed_keeps_apart(feed_byte(before, b), feed_byte(before, bytes[i]), back);
    let p = feed(init, bytes.update(i, b));
    let q = feed(init, bytes);
    assert((p ^ 0xFFFF_FFFFu32) != (q ^ 0xFFFF_FFFFu32)) by (bit_vector)
        requires
            p != q,
    ;
}

fn update_byte(register: u32, b: u8) -> (next: u32)
    ensures
        next == feed_byte(register, b),
{
    let mut state: u32 = register ^ (b as u32);
    let mut bit: u8 = 0;
    while bit < 8
        invariant
            bit <= 8,
            state == shift_bits(register ^ (b as u32), bit as nat),
        decreases 8 - bit,
    {
        state = if state & 1 == 1 {
            (state >> 1) ^ 0xEDB8_8320u32
        } else {
            state >> 1
        };
        bit = bit + 1;
    }
    state
}

/// Feeds `bytes` into a running register.
pub fn update(register: u32, bytes: &[u8]) -> (next: u32)
    ensures
        next == feed(register, bytes@),
{
    let mut state: u32 = register;
    let mut i: usize = 0;
    while i < bytes.len()
        invariant
            i <= bytes.len(),
            state == feed(register, bytes@.take(i as int)),
        decreases bytes.len() - i,
    {
        state = update_byte(state, bytes[i]);
        i = i + 1;
        proof {
            assert(bytes@.take(i as int).drop_last() =~= bytes@.take(i as int - 1));
        }
    }
    proof {
        assert(bytes@.take(i as int) =~= bytes@);
    }
    state
}

/// Computes the CRC-32 checksum of `bytes`.
pub fn checksum(bytes: &[u8]) -> (crc: u32)
    ensures
        crc == crc32(bytes@),
{
    update(0xFFFF_FFFFu32, bytes) ^ 0xFFFF_FFFFu32
}

} // verus!
