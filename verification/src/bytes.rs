//! Little-endian integers in byte sequences.

use vstd::prelude::*;

verus! {

/// The lowest `width` bytes of a number, least significant first.
pub open spec fn le_bytes(v: nat, width: nat) -> Seq<u8>
    decreases width,
{
    if width == 0 {
        Seq::empty()
    } else {
        seq![(v % 256) as u8] + le_bytes(v / 256, (width - 1) as nat)
    }
}

/// The number that a little-endian byte sequence stands for.
pub open spec fn le_value(bytes: Seq<u8>) -> nat
    decreases bytes.len(),
{
    if bytes.len() == 0 {
        0
    } else {
        bytes[0] as nat + 256 * le_value(bytes.skip(1))
    }
}

/// How many numbers fit in `width` bytes.
pub open spec fn byte_range(width: nat) -> nat
    decreases width,
{
    if width == 0 {
        1
    } else {
        256 * byte_range((width - 1) as nat)
    }
}

/// A number takes as many bytes as asked for.
pub proof fn lemma_le_bytes_len(v: nat, width: nat)
    ensures
        le_bytes(v, width).len() == width,
    decreases width,
{
    if width > 0 {
        lemma_le_bytes_len(v / 256, (width - 1) as nat);
    }
}

/// Reading back the bytes of a number that fits in them gives the number.
pub proof fn lemma_le_round_trip(v: nat, width: nat)
    requires
        v < byte_range(width),
    ensures
        le_bytes(v, width).len() == width,
        le_value(le_bytes(v, width)) == v,
    decreases width,
{
    if width > 0 {
        lemma_le_round_trip(v / 256, (width - 1) as nat);
        assert(le_bytes(v, width).skip(1) =~= le_bytes(v / 256, (width - 1) as nat));
    }
}

/// The ranges of the integer types that stand in frames and files.
pub proof fn lemma_byte_ranges()
    ensures
        byte_range(1) == 0x100,
        byte_range(2) == 0x1_0000,
        byte_range(4) == 0x1_0000_0000,
        byte_range(8) == 0x1_0000_0000_0000_0000,
{
    reveal_with_fuel(byte_range, 9);
}

/// What is read from a byte sequence fits in as many bytes.
pub proof fn lemma_le_value_bound(bytes: Seq<u8>)
    ensures
        le_value(bytes) < byte_range(bytes.len()),
    decreases bytes.len(),
{
    if bytes.len() > 0 {
        lemma_le_value_bound(bytes.skip(1));
    }
}

/// Appends the lowest `width` bytes of `v`.
pub fn push_le(buf: &mut Vec<u8>, v: u64, width: usize)
    ensures
        final(buf)@ == old(buf)@ + le_bytes(v as nat, width as nat),
    decreases width,
{
    if width > 0 {
        buf.push((v % 256) as u8);
        push_le(buf, v / 256, width - 1);
    }
    assert(buf@ =~= old(buf)@ + le_bytes(v as nat, width as nat));
}

/// Reads the number in `bytes[at..at + width]`.
pub fn read_le(bytes: &[u8], at: usize, width: usize) -> (v: u64)
    requires
        width <= 8,
        at + width <= bytes@.len(),
    ensures
        v == le_value(bytes@.subrange(at as int, at + width)),
    decreases width,
{
    let ghost window = bytes@.subrange(at as int, at + width);
    if width == 0 {
        0
    } else {
        assert(bytes.len() <= usize::MAX);
        let high = read_le(bytes, at + 1, width - 1);
        proof {
            assert(window.skip(1) =~= bytes@.subrange(at + 1, at + width));
            lemma_le_value_bound(window.skip(1));
            reveal_with_fuel(byte_range, 9);
        }
        bytes[at] as u64 + 256 * high
    }
}

/// The byte at each position counts for the position's power of 256: the first is
/// the least significant.
pub proof fn lemma_least_significant_first(v: nat, width: nat, i: nat)
    requires
        i < width,
    ensures
        le_bytes(v, width).len() == width,
        le_bytes(v, width)[i as int] == (v / byte_range(i)) % 256,
    decreases width,
{
    lemma_le_bytes_len(v, width);
    lemma_le_bytes_len(v / 256, (width - 1) as nat);
    if i > 0 {
        let p = byte_range((i - 1) as nat);
        lemma_least_significant_first(v / 256, (width - 1) as nat, (i - 1) as nat);
        lemma_byte_range_positive((i - 1) as nat);
        assert((v / 256) / p == v / (256 * p)) by (nonlinear_arith)
            requires
                p > 0,
        ;
        assert(le_bytes(v, width)[i as int] == le_bytes(v / 256, (width - 1) as nat)[i - 1]);
    } else {
        assert(v / 1 == v);
    }
}

proof fn lemma_byte_range_positive(width: nat)
    ensures
        byte_range(width) > 0,
    decreases width,
{
    if width > 0 {
        lemma_byte_range_positive((width - 1) as nat);
    }
}

/// Only one number has given bytes: what is read is the sum of the bytes, each times
/// its position's power of 256.
pub proof fn lemma_value_of_appended(bytes: Seq<u8>, last: u8)
    ensures
        le_value(bytes.push(last)) == le_value(bytes) + last * byte_range(bytes.len()),
    decreases bytes.len(),
{
    let longer = bytes.push(last);
    if bytes.len() == 0 {
        assert(longer.skip(1) =~= Seq::<u8>::empty());
        assert(le_value(longer.skip(1)) == 0);
        assert(last * byte_range(0) == last) by (nonlinear_arith)
            requires
                byte_range(0) == 1,
        ;
    } else {
        let rest = bytes.skip(1);
        lemma_value_of_appended(rest, last);
        assert(longer.skip(1) =~= rest.push(last));
        assert(longer[0] == bytes[0]);
        let p = byte_range(rest.len());
        assert(byte_range(bytes.len()) == 256 * p);
        assert(256 * (last * p) == last * (256 * p)) by (nonlinear_arith);
    }
}

} // verus!
