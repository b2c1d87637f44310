//! The bits of a single byte, most significant first, and how the bitwise
//! operators act on them.

use vstd::prelude::*;
use vstd::std_specs::bits::{axiom_u8_leading_zeros, u8_leading_zeros};

verus! {

/// The bit of `byte` at big-endian position `pos`: position 0 is the most significant bit.
pub open spec fn byte_bit(byte: u8, pos: int) -> bool {
    (byte >> ((7 - pos) as u8)) & 1u8 == 1u8
}

/// The byte in which only the bit at big-endian position `pos` is set.
pub open spec fn byte_mask(pos: int) -> u8 {
    1u8 << ((7 - pos) as u8)
}

proof fn lemma_shift_and(a: u8, b: u8, q: u8)
    by (bit_vector)
    requires
        q < 8,
    ensures
        (((a & b) >> q) & 1u8 == 1u8) <==> ((a >> q) & 1u8 == 1u8 && (b >> q) & 1u8 == 1u8),
        (((a | b) >> q) & 1u8 == 1u8) <==> ((a >> q) & 1u8 == 1u8 || (b >> q) & 1u8 == 1u8),
        (((a ^ b) >> q) & 1u8 == 1u8) <==> (((a >> q) & 1u8 == 1u8) != ((b >> q) & 1u8 == 1u8)),
        (((!a) >> q) & 1u8 == 1u8) <==> !((a >> q) & 1u8 == 1u8),
{
}

proof fn lemma_shift_mask(k: u8, q: u8)
    by (bit_vector)
    requires
        k < 8,
        q < 8,
    ensures
        (((1u8 << k) >> q) & 1u8 == 1u8) <==> q == k,
        1u8 << k >= 1u8,
        (((((1u8 << k) - 1) as u8) >> q) & 1u8 == 1u8) <==> q < k,
        ((0u8 >> q) & 1u8 == 1u8) <==> false,
        ((255u8 >> q) & 1u8 == 1u8) <==> true,
{
}

proof fn lemma_shift_succ(x: u8, q: u8)
    by (bit_vector)
    requires
        x < 255,
        q < 8,
    ensures
        ((((x + 1) as u8) >> q) & 1u8 == 1u8) <==> (((x >> q) & 1u8 == 1u8) != ((x | !(((1u8
            << q) - 1) as u8)) == 255u8)),
{
}

proof fn lemma_shift_ext(a: u8, b: u8)
    by (bit_vector)
    requires
        (a >> 0u8) & 1u8 == (b >> 0u8) & 1u8,
        (a >> 1u8) & 1u8 == (b >> 1u8) & 1u8,
        (a >> 2u8) & 1u8 == (b >> 2u8) & 1u8,
        (a >> 3u8) & 1u8 == (b >> 3u8) & 1u8,
        (a >> 4u8) & 1u8 == (b >> 4u8) & 1u8,
        (a >> 5u8) & 1u8 == (b >> 5u8) & 1u8,
        (a >> 6u8) & 1u8 == (b >> 6u8) & 1u8,
        (a >> 7u8) & 1u8 == (b >> 7u8) & 1u8,
    ensures
        a == b,
{
}

proof fn lemma_shift_bit_values(a: u8, q: u8)
    by (bit_vector)
    requires
        q < 8,
    ensures
        (a >> q) & 1u8 == 1u8 || (a >> q) & 1u8 == 0u8,
{
}

/// Each bit of `a & b`, `a | b`, `a ^ b` and `!a` is the like operation on the bits.
pub proof fn lemma_byte_ops(a: u8, b: u8)
    ensures
        forall|p: int| 0 <= p < 8 ==> #[trigger] byte_bit(a & b, p) == (byte_bit(a, p) && byte_bit(b, p)),
        forall|p: int| 0 <= p < 8 ==> #[trigger] byte_bit(a | b, p) == (byte_bit(a, p) || byte_bit(b, p)),
        forall|p: int| 0 <= p < 8 ==> #[trigger] byte_bit(a ^ b, p) == (byte_bit(a, p) != byte_bit(b, p)),
        forall|p: int| 0 <= p < 8 ==> #[trigger] byte_bit(!a, p) == !byte_bit(a, p),
{
    assert forall|p: int| 0 <= p < 8 implies #[trigger] byte_bit(a & b, p) == (byte_bit(a, p) && byte_bit(b, p)) by {
        lemma_shift_and(a, b, (7 - p) as u8);
    }
    assert forall|p: int| 0 <= p < 8 implies #[trigger] byte_bit(a | b, p) == (byte_bit(a, p) || byte_bit(b, p)) by {
        lemma_shift_and(a, b, (7 - p) as u8);
    }
    assert forall|p: int| 0 <= p < 8 implies #[trigger] byte_bit(a ^ b, p) == (byte_bit(a, p) != byte_bit(b, p)) by {
        lemma_shift_and(a, b, (7 - p) as u8);
    }
    assert forall|p: int| 0 <= p < 8 implies #[trigger] byte_bit(!a, p) == !byte_bit(a, p) by {
        lemma_shift_and(a, b, (7 - p) as u8);
    }
}

/// The bits of a single-bit mask, of the mask of all bits after it, and of the two constant bytes.
pub proof fn lemma_byte_masks(k: int)
    requires
        0 <= k < 8,
    ensures
        byte_mask(k) >= 1,
        forall|p: int| 0 <= p < 8 ==> #[trigger] byte_bit(byte_mask(k), p) == (p == k),
        forall|p: int| 0 <= p < 8 ==> #[trigger] byte_bit((byte_mask(k) - 1) as u8, p) == (p > k),
        forall|p: int| 0 <= p < 8 ==> !#[trigger] byte_bit(0u8, p),
        forall|p: int| 0 <= p < 8 ==> #[trigger] byte_bit(255u8, p),
{
    lemma_shift_mask((7 - k) as u8, 0);
    assert forall|p: int| 0 <= p < 8 implies #[trigger] byte_bit(byte_mask(k), p) == (p == k) by {
        lemma_shift_mask((7 - k) as u8, (7 - p) as u8);
    }
    assert forall|p: int| 0 <= p < 8 implies #[trigger] byte_bit((byte_mask(k) - 1) as u8, p) == (p > k) by {
        lemma_shift_mask((7 - k) as u8, (7 - p) as u8);
    }
    assert forall|p: int| 0 <= p < 8 implies !#[trigger] byte_bit(0u8, p) by {
        lemma_shift_mask((7 - k) as u8, (7 - p) as u8);
    }
    assert forall|p: int| 0 <= p < 8 implies #[trigger] byte_bit(255u8, p) by {
        lemma_shift_mask((7 - k) as u8, (7 - p) as u8);
    }
}

/// Two bytes with the same eight bits are equal.
pub proof fn lemma_byte_ext(a: u8, b: u8)
    requires
        forall|p: int| 0 <= p < 8 ==> byte_bit(a, p) == byte_bit(b, p),
    ensures
        a == b,
{
    assert(byte_bit(a, 7) == byte_bit(b, 7));
    assert(byte_bit(a, 6) == byte_bit(b, 6));
    assert(byte_bit(a, 5) == byte_bit(b, 5));
    assert(byte_bit(a, 4) == byte_bit(b, 4));
    assert(byte_bit(a, 3) == byte_bit(b, 3));
    assert(byte_bit(a, 2) == byte_bit(b, 2));
    assert(byte_bit(a, 1) == byte_bit(b, 1));
    assert(byte_bit(a, 0) == byte_bit(b, 0));
    lemma_shift_bit_values(a, 0);
    lemma_shift_bit_values(a, 1);
    lemma_shift_bit_values(a, 2);
    lemma_shift_bit_values(a, 3);
    lemma_shift_bit_values(a, 4);
    lemma_shift_bit_values(a, 5);
    lemma_shift_bit_values(a, 6);
    lemma_shift_bit_values(a, 7);
    lemma_shift_bit_values(b, 0);
    lemma_shift_bit_values(b, 1);
    lemma_shift_bit_values(b, 2);
    lemma_shift_bit_values(b, 3);
    lemma_shift_bit_values(b, 4);
    lemma_shift_bit_values(b, 5);
    lemma_shift_bit_values(b, 6);
    lemma_shift_bit_values(b, 7);
    lemma_shift_ext(a, b);
}

/// A byte is 0 exactly when all its bits are 0, and 255 exactly when all are 1.
pub proof fn lemma_byte_uniform(a: u8)
    ensures
        a == 0 <==> forall|p: int| 0 <= p < 8 ==> !byte_bit(a, p),
        a == 255 <==> forall|p: int| 0 <= p < 8 ==> byte_bit(a, p),
{
    lemma_byte_masks(0);
    if forall|p: int| 0 <= p < 8 ==> !byte_bit(a, p) {
        lemma_byte_ext(a, 0);
    }
    if forall|p: int| 0 <= p < 8 ==> byte_bit(a, p) {
        lemma_byte_ext(a, 255);
    }
}

/// Adding 1 to a byte below 255 changes a bit exactly when every less significant bit is 1.
pub proof fn lemma_byte_succ(x: u8)
    requires
        x < 255,
    ensures
        forall|p: int|
            0 <= p < 8 ==> #[trigger] byte_bit((x + 1) as u8, p) == (byte_bit(x, p) != (forall|r: int|
                p < r < 8 ==> byte_bit(x, r))),
{
    assert forall|p: int| 0 <= p < 8 implies #[trigger] byte_bit((x + 1) as u8, p) == (byte_bit(x, p)
        != (forall|r: int| p < r < 8 ==> byte_bit(x, r))) by {
        let low = (byte_mask(p) - 1) as u8;
        let padded = x | !low;
        lemma_shift_succ(x, (7 - p) as u8);
        lemma_byte_masks(p);
        lemma_byte_ops(x, !low);
        lemma_byte_ops(low, low);
        lemma_byte_uniform(padded);
        if forall|r: int| p < r < 8 ==> byte_bit(x, r) {
            assert forall|r: int| 0 <= r < 8 implies byte_bit(padded, r) by {
                assert(byte_bit(padded, r) == (byte_bit(x, r) || byte_bit(!low, r)));
                assert(byte_bit(!low, r) == !byte_bit(low, r));
            }
        } else {
            let r = choose|r: int| p < r < 8 && !byte_bit(x, r);
            assert(byte_bit(padded, r) == (byte_bit(x, r) || byte_bit(!low, r)));
            assert(byte_bit(!low, r) == !byte_bit(low, r));
        }
    }
}

/// Where two bytes differ, the leading zeroes of their exclusive or count
/// the leading bits on which they agree.
pub proof fn lemma_byte_diff(a: u8, b: u8)
    ensures
        a ^ b == 0 <==> a == b,
        u8_leading_zeros(a ^ b) <= 8,
        forall|p: int| 0 <= p < u8_leading_zeros(a ^ b) ==> byte_bit(a, p) == byte_bit(b, p),
        a != b ==> u8_leading_zeros(a ^ b) < 8 && byte_bit(a, u8_leading_zeros(a ^ b) as int)
            != byte_bit(b, u8_leading_zeros(a ^ b) as int),
{
    let d = a ^ b;
    let lz = u8_leading_zeros(d);
    axiom_u8_leading_zeros(d);
    lemma_byte_ops(a, b);
    lemma_byte_uniform(d);
    if d == 0 {
        assert forall|p: int| 0 <= p < 8 implies byte_bit(a, p) == byte_bit(b, p) by {
            assert(!byte_bit(d, p));
        }
        lemma_byte_ext(a, b);
    }
    assert forall|p: int| 0 <= p < lz implies byte_bit(a, p) == byte_bit(b, p) by {
        let j = (7 - p) as u8;
        assert((d >> j) & 1u8 == 0u8);
        assert(!byte_bit(d, p));
    }
    if d != 0 {
        let j = (7 - lz) as u8;
        lemma_shift_bit_values(d, j);
        assert(byte_bit(d, lz as int));
    }
}

} // verus!
