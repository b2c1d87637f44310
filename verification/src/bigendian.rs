//! Bit strings stored in slices of fixed-width unsigned integers.

use vstd::prelude::*;
use vstd::std_specs::bits::u8_leading_zeros;
use crate::bits::{
    agree_upto, all_from, filled_from, inc_guarded, shared_prefix, successor,
    lemma_shared_prefix_unique,
};
use crate::byte::{
    byte_bit, byte_mask, lemma_byte_diff, lemma_byte_ext, lemma_byte_masks, lemma_byte_ops,
    lemma_byte_succ, lemma_byte_uniform,
};

verus! {

/// Manipulation of bit strings held in slices of `Self`, most significant bit first.
///
/// Every contract is stated over `Self::bits`, the bit string that a slice
/// stands for.
pub trait BigEndianManipulation: Sized {
    /// The number of bits that one element holds.
    spec fn elem_width() -> nat;

    /// The bit string that a sequence of elements stands for: bit 0 is the
    /// most significant bit of element 0.
    spec fn bits(elems: Seq<Self>) -> Seq<bool>;

    /// Every element contributes `elem_width()` bits, and there is at least one bit per element.
    proof fn lemma_bits_len(elems: Seq<Self>)
        ensures
            Self::bits(elems).len() == elems.len() * Self::elem_width(),
            Self::elem_width() > 0,
    ;

    /// Two sequences of elements that stand for the same bit string are equal.
    proof fn lemma_bits_injective(a: Seq<Self>, b: Seq<Self>)
        requires
            Self::bits(a) == Self::bits(b),
        ensures
            a == b,
    ;

    /// Bit count of a single element.
    fn elembits() -> (n: usize)
        ensures
            n == Self::elem_width(),
    ;

    /// The element in which exactly the bit at position `ndx % elembits()` is set.
    fn mask(ndx: usize) -> (m: Self)
        ensures
            Self::bits(seq![m]).len() == Self::elem_width(),
            forall|p: int|
                0 <= p < Self::elem_width() ==> (#[trigger] Self::bits(seq![m])[p] <==> p
                    == ndx as int % Self::elem_width() as int),
    ;

    /// Increments the bit string as one big unsigned integer, wrapping from
    /// all ones to all zeroes, and then restores the bit at `prefix - 1`, the
    /// last one of the guarded prefix. Returns whether the increment carried
    /// out of the bits from `prefix` on.
    fn inc(slice: &mut [Self], prefix: usize) -> (overflow: bool)
        requires
            prefix <= Self::bits(old(slice)@).len(),
        ensures
            final(slice)@.len() == old(slice)@.len(),
            (Self::bits(final(slice)@), overflow) == inc_guarded(
                Self::bits(old(slice)@),
                prefix as nat,
            ),
    ;

    /// The bit at index `ndx`.
    fn get(slice: &[Self], ndx: usize) -> (bit: bool)
        requires
            ndx < Self::bits(slice@).len(),
        ensures
            bit == Self::bits(slice@)[ndx as int],
    ;

    /// Sets the bit at index `ndx` to `bit`.
    fn set(slice: &mut [Self], ndx: usize, bit: bool)
        requires
            ndx < Self::bits(old(slice)@).len(),
        ensures
            final(slice)@.len() == old(slice)@.len(),
            Self::bits(final(slice)@) == Self::bits(old(slice)@).update(ndx as int, bit),
    {
        if bit {
            Self::on(slice, ndx)
        } else {
            Self::off(slice, ndx)
        }
    }

    /// Sets the bit at index `ndx` to 1.
    fn on(slice: &mut [Self], ndx: usize)
        requires
            ndx < Self::bits(old(slice)@).len(),
        ensures
            final(slice)@.len() == old(slice)@.len(),
            Self::bits(final(slice)@) == Self::bits(old(slice)@).update(ndx as int, true),
    ;

    /// Sets the bit at index `ndx` to 0.
    fn off(slice: &mut [Self], ndx: usize)
        requires
            ndx < Self::bits(old(slice)@).len(),
        ensures
            final(slice)@.len() == old(slice)@.len(),
            Self::bits(final(slice)@) == Self::bits(old(slice)@).update(ndx as int, false),
    ;

    /// Inverts the bit at index `ndx`.
    fn flip(slice: &mut [Self], ndx: usize)
        requires
            ndx < Self::bits(old(slice)@).len(),
        ensures
            final(slice)@.len() == old(slice)@.len(),
            Self::bits(final(slice)@) == Self::bits(old(slice)@).update(
                ndx as int,
                !Self::bits(old(slice)@)[ndx as int],
            ),
    ;

    /// The number of leading bits on which `slice` and `other` agree, capped at `max_len`.
    fn shared_prefix_len(slice: &[Self], other: &[Self], max_len: usize) -> (len: usize)
        requires
            max_len <= Self::bits(slice@).len(),
            max_len <= Self::bits(other@).len(),
        ensures
            len == shared_prefix(Self::bits(slice@), Self::bits(other@), max_len as nat),
    ;

    /// Sets every bit from index `ndx` on to 0.
    fn zeroesfrom(slice: &mut [Self], ndx: usize)
        ensures
            final(slice)@.len() == old(slice)@.len(),
            Self::bits(final(slice)@) == filled_from(Self::bits(old(slice)@), ndx as int, false),
    ;

    /// Whether every bit from index `ndx` on is 0, so that `zeroesfrom` would change nothing.
    fn is_zeroesfrom(slice: &[Self], ndx: usize) -> (clean: bool)
        ensures
            clean == all_from(Self::bits(slice@), ndx as int, false),
    ;

    /// Sets every bit from index `ndx` on to 1.
    fn onesfrom(slice: &mut [Self], ndx: usize)
        ensures
            final(slice)@.len() == old(slice)@.len(),
            Self::bits(final(slice)@) == filled_from(Self::bits(old(slice)@), ndx as int, true),
    ;

    /// Whether every bit from index `ndx` on is 1, so that `onesfrom` would change nothing.
    fn is_onesfrom(slice: &[Self], ndx: usize) -> (full: bool)
        ensures
            full == all_from(Self::bits(slice@), ndx as int, true),
    ;

    /// Whether `other` has the same first `prefix` bits as `slice`.
    fn contains(slice: &[Self], prefix: usize, other: &[Self]) -> (inside: bool)
        requires
            prefix <= Self::bits(slice@).len(),
            prefix <= Self::bits(other@).len(),
        ensures
            inside == agree_upto(Self::bits(slice@), Self::bits(other@), prefix as int),
    ;
}

/// The byte whose eight bits all equal `value`.
pub open spec fn uniform_byte(value: bool) -> u8 {
    if value {
        255u8
    } else {
        0u8
    }
}

/// Every bit from the start of byte `from` on equals `value` exactly when
/// each byte from `from` on is uniform in it. With `from` at 0: no bit of a
/// byte array is set exactly when every byte is 0.
pub proof fn lemma_whole_bytes(elems: Seq<u8>, from: int, value: bool)
    requires
        0 <= from,
    ensures
        all_from(u8::bits(elems), 8 * from, value) <==> forall|j: int|
            from <= j < elems.len() ==> elems[j] == uniform_byte(value),
{
    let bits = u8::bits(elems);
    lemma_byte_masks(0);
    if all_from(bits, 8 * from, value) {
        assert forall|j: int| from <= j < elems.len() implies elems[j] == uniform_byte(value) by {
            assert forall|p: int| 0 <= p < 8 implies byte_bit(elems[j], p) == byte_bit(
                uniform_byte(value),
                p,
            ) by {
                let i = 8 * j + p;
                assert(i / 8 == j && i % 8 == p);
                assert(bits[i] == value);
            }
            lemma_byte_ext(elems[j], uniform_byte(value));
        }
    }
    if forall|j: int| from <= j < elems.len() ==> elems[j] == uniform_byte(value) {
        assert forall|i: int| 0 <= i < bits.len() && 8 * from <= i implies bits[i] == value by {
            assert(elems[i / 8] == uniform_byte(value));
        }
    }
}

/// Writes `value` into every element from index `from` on.
fn fill_elems(slice: &mut [u8], from: usize, value: u8)
    ensures
        final(slice)@.len() == old(slice)@.len(),
        forall|j: int| 0 <= j < old(slice)@.len() && j < from ==> final(slice)@[j] == old(slice)@[j],
        forall|j: int| from <= j < old(slice)@.len() ==> final(slice)@[j] == value,
{
    let mut i: usize = from;
    while i < slice.len()
        invariant
            from <= i,
            slice@.len() == old(slice)@.len(),
            forall|j: int| 0 <= j < slice@.len() && j < from ==> slice@[j] == old(slice)@[j],
            forall|j: int| from <= j < slice@.len() && j < i ==> slice@[j] == value,
        decreases slice@.len() - i,
    {
        slice[i] = value;
        i += 1;
    }
}

/// Whether every element from index `from` on equals `value`.
fn elems_are(slice: &[u8], from: usize, value: u8) -> (same: bool)
    ensures
        same == forall|j: int| from <= j < slice@.len() ==> slice@[j] == value,
{
    let mut i: usize = from;
    while i < slice.len()
        invariant
            from <= i,
            forall|j: int| from <= j < slice@.len() && j < i ==> slice@[j] == value,
        decreases slice@.len() - i,
    {
        if slice[i] != value {
            return false;
        }
        i += 1;
    }
    true
}

/// The bits of a byte array after the byte at `at` was replaced.
proof fn lemma_bits_update(elems: Seq<u8>, at: int, byte: u8)
    requires
        0 <= at < elems.len(),
    ensures
        u8::bits(elems.update(at, byte)).len() == u8::bits(elems).len(),
        forall|i: int|
            0 <= i < 8 * elems.len() ==> #[trigger] u8::bits(elems.update(at, byte))[i] == if i / 8
                == at {
                byte_bit(byte, i % 8)
            } else {
                u8::bits(elems)[i]
            },
{
}

/// Fills the bit string from `ndx` on with `value`.
fn fill_from(slice: &mut [u8], ndx: usize, value: bool)
    ensures
        final(slice)@.len() == old(slice)@.len(),
        u8::bits(final(slice)@) == filled_from(u8::bits(old(slice)@), ndx as int, value),
{
    let slice_ndx: usize = ndx / 8;
    let whole: u8 = if value { !0 } else { 0 };
    assert(whole == uniform_byte(value)) by {
        assert(!0u8 == 255u8) by (bit_vector);
    }
    if 0 == ndx % 8 {
        fill_elems(slice, slice_ndx, whole);
    } else if slice_ndx < slice.len() {
        let ghost k: int = (ndx - 1) % 8;
        proof {
            lemma_byte_masks(k);
        }
        let mask: u8 = u8::mask(ndx - 1) - 1;
        proof {
            lemma_byte_ops(slice@[slice_ndx as int], mask);
            lemma_byte_ops(slice@[slice_ndx as int], !mask);
            lemma_byte_ops(mask, mask);
        }
        if value {
            slice[slice_ndx] = slice[slice_ndx] | mask;
        } else {
            slice[slice_ndx] = slice[slice_ndx] & !mask;
        }
        let ghost partial = slice@;
        proof {
            lemma_bits_update(old(slice)@, slice_ndx as int, partial[slice_ndx as int]);
            assert(partial =~= old(slice)@.update(slice_ndx as int, partial[slice_ndx as int]));
        }
        fill_elems(slice, slice_ndx + 1, whole);
        proof {
            lemma_byte_masks(0);
            let before = u8::bits(old(slice)@);
            assert forall|i: int| 0 <= i < before.len() implies u8::bits(slice@)[i] == filled_from(
                before,
                ndx as int,
                value,
            )[i] by {
                if i / 8 == slice_ndx {
                    assert(slice@[i / 8] == partial[i / 8]);
                    assert(u8::bits(partial)[i] == byte_bit(partial[i / 8], i % 8));
                } else if i / 8 < slice_ndx {
                    assert(slice@[i / 8] == old(slice)@[i / 8]);
                } else {
                    assert(slice@[i / 8] == whole);
                }
            }
            assert(u8::bits(slice@) =~= filled_from(before, ndx as int, value));
        }
        return ;
    }
    proof {
        lemma_byte_masks(0);
        let before = u8::bits(old(slice)@);
        assert forall|i: int| 0 <= i < before.len() implies u8::bits(slice@)[i] == filled_from(
            before,
            ndx as int,
            value,
        )[i] by {
            if i / 8 < slice_ndx {
                assert(slice@[i / 8] == old(slice)@[i / 8]);
            } else if 0 == ndx % 8 {
                assert(slice@[i / 8] == whole);
            }
        }
        assert(u8::bits(slice@) =~= filled_from(before, ndx as int, value));
    }
}

/// Whether every bit from `ndx` on equals `value`.
fn is_filled_from(slice: &[u8], ndx: usize, value: bool) -> (filled: bool)
    ensures
        filled == all_from(u8::bits(slice@), ndx as int, value),
{
    let slice_ndx: usize = ndx / 8;
    let whole: u8 = if value { !0 } else { 0 };
    assert(whole == uniform_byte(value)) by {
        assert(!0u8 == 255u8) by (bit_vector);
    }
    let ghost bits = u8::bits(slice@);
    if 0 == ndx % 8 {
        proof {
            lemma_whole_bytes(slice@, slice_ndx as int, value);
        }
        elems_are(slice, slice_ndx, whole)
    } else if slice_ndx < slice.len() {
        let ghost k: int = (ndx - 1) % 8;
        proof {
            lemma_byte_masks(k);
        }
        let mask: u8 = u8::mask(ndx - 1) - 1;
        let byte = slice[slice_ndx];
        let probe: u8 = if value { byte | !mask } else { byte & mask };
        proof {
            lemma_byte_masks(k);
            lemma_byte_ops(byte, mask);
            lemma_byte_ops(byte, !mask);
            lemma_byte_ops(mask, mask);
            lemma_byte_uniform(probe);
            lemma_whole_bytes(slice@, slice_ndx + 1, value);
        }
        if probe != whole {
            proof {
                // some bit of the boundary byte at or after `ndx` is not `value`
                let p = if value {
                    choose|p: int| 0 <= p < 8 && !byte_bit(probe, p)
                } else {
                    choose|p: int| 0 <= p < 8 && byte_bit(probe, p)
                };
                let i = 8 * slice_ndx + p;
                assert(i / 8 == slice_ndx && i % 8 == p);
                assert(bits[i] == byte_bit(byte, p));
                assert(bits[i] != value);
                assert(p > k);
            }
            return false;
        }
        let rest = elems_are(slice, slice_ndx + 1, whole);
        proof {
            if rest {
                assert forall|i: int| 0 <= i < bits.len() && ndx <= i implies bits[i] == value by {
                    if i / 8 == slice_ndx {
                        let p = i % 8;
                        assert(p > k);
                        assert(byte_bit(probe, p) == value);
                    } else {
                        assert(all_from(bits, 8 * (slice_ndx + 1), value));
                    }
                }
            } else {
                let j = choose|j: int| slice_ndx + 1 <= j < slice@.len() && slice@[j] != whole;
                assert(!all_from(bits, 8 * (slice_ndx + 1), value));
            }
        }
        rest
    } else {
        true
    }
}

/// How a carry that ran from the last byte down to byte `at` relates the
/// bytes before the increment to those after it: the bytes it passed were 255
/// and are 0, and unless it ran off the front, the byte at `at` grew by 1.
spec fn carried_bytes(before: Seq<u8>, after: Seq<u8>, at: int, wrapped: bool) -> bool {
    &&& after.len() == before.len()
    &&& 0 <= at <= before.len()
    &&& forall|j: int| 0 <= j < at ==> after[j] == before[j]
    &&& forall|j: int| at < j < before.len() ==> before[j] == 255u8 && after[j] == 0u8
    &&& wrapped ==> at == 0 && forall|j: int|
        0 <= j < before.len() ==> before[j] == 255u8 && after[j] == 0u8
    &&& !wrapped ==> at < before.len() && before[at] < 255u8 && after[at] == before[at] + 1
}

/// A carry through the bytes yields the successor of the bit string, and
/// runs off the front exactly when every bit was 1.
proof fn lemma_carried_bytes(before: Seq<u8>, after: Seq<u8>, at: int, wrapped: bool)
    requires
        carried_bytes(before, after, at, wrapped),
    ensures
        u8::bits(after) == successor(u8::bits(before)),
        wrapped == all_from(u8::bits(before), 0, true),
{
    let old_bits = u8::bits(before);
    let new_bits = u8::bits(after);
    let next = successor(old_bits);
    lemma_byte_masks(0);
    assert forall|g: int| 0 <= g < old_bits.len() implies new_bits[g] == next[g] by {
        let j = g / 8;
        let p = g % 8;
        assert(old_bits[g] == byte_bit(before[j], p));
        assert(new_bits[g] == byte_bit(after[j], p));
        if wrapped || j > at {
            assert(before[j] == 255u8 && after[j] == 0u8);
            assert(byte_bit(255u8, p) && !byte_bit(0u8, p));
            assert forall|h: int| 0 <= h < old_bits.len() && g + 1 <= h implies old_bits[h]
                == true by {
                assert(before[h / 8] == 255u8);
                assert(byte_bit(255u8, h % 8));
            }
            assert(all_from(old_bits, g + 1, true));
        } else if j == at {
            let x = before[j];
            lemma_byte_succ(x);
            assert((x + 1) as u8 == after[j]);
            assert(byte_bit(after[j], p) == (byte_bit(x, p) != (forall|r: int|
                p < r < 8 ==> byte_bit(x, r))));
            if forall|r: int| p < r < 8 ==> byte_bit(x, r) {
                assert forall|h: int| 0 <= h < old_bits.len() && g + 1 <= h implies old_bits[h]
                    == true by {
                    if h / 8 == j {
                        assert(byte_bit(x, h % 8));
                    } else {
                        assert(before[h / 8] == 255u8);
                        assert(byte_bit(255u8, h % 8));
                    }
                }
                assert(all_from(old_bits, g + 1, true));
            } else {
                let r = choose|r: int| p < r < 8 && !byte_bit(x, r);
                let h = 8 * j + r;
                assert(h / 8 == j && h % 8 == r);
                assert(old_bits[h] == false);
                assert(!all_from(old_bits, g + 1, true));
            }
        } else {
            let x = before[at];
            lemma_byte_uniform(x);
            let r = choose|r: int| 0 <= r < 8 && !byte_bit(x, r);
            let h = 8 * at + r;
            assert(h / 8 == at && h % 8 == r);
            assert(old_bits[h] == false);
            assert(!all_from(old_bits, g + 1, true));
            assert(after[j] == before[j]);
        }
    }
    assert(new_bits =~= next);
    lemma_whole_bytes(before, 0, true);
}

impl BigEndianManipulation for u8 {
    open spec fn elem_width() -> nat {
        8
    }

    open spec fn bits(elems: Seq<u8>) -> Seq<bool> {
        Seq::new(8 * elems.len(), |i: int| byte_bit(elems[i / 8], i % 8))
    }

    proof fn lemma_bits_len(elems: Seq<u8>) {
    }

    proof fn lemma_bits_injective(a: Seq<u8>, b: Seq<u8>) {
        let x = Self::bits(a);
        let y = Self::bits(b);
        assert(x.len() == 8 * a.len() && y.len() == 8 * b.len());
        assert forall|j: int| 0 <= j < a.len() implies a[j] == b[j] by {
            assert forall|p: int| 0 <= p < 8 implies byte_bit(a[j], p) == byte_bit(b[j], p) by {
                let i = 8 * j + p;
                assert(i / 8 == j && i % 8 == p);
                assert(x[i] == byte_bit(a[j], p));
                assert(y[i] == byte_bit(b[j], p));
            }
            lemma_byte_ext(a[j], b[j]);
        }
        assert(a =~= b);
    }

    fn elembits() -> (n: usize) {
        8
    }

    fn mask(ndx: usize) -> (m: u8)
        ensures
            m == byte_mask(ndx as int % 8),
    {
        let bit_ndx: u8 = 7 - (ndx % 8) as u8;
        let m: u8 = 1u8 << bit_ndx;
        proof {
            lemma_byte_masks(ndx as int % 8);
            assert(Self::elem_width() == 8);
            assert(seq![m].len() == 1 && seq![m][0] == m);
            assert(Self::bits(seq![m]).len() == 8);
            assert forall|p: int| 0 <= p < 8 implies (#[trigger] Self::bits(seq![m])[p] <==> p
                == ndx as int % 8) by {
                assert(p / 8 == 0 && p % 8 == p);
            }
        }
        m
    }

    fn inc(slice: &mut [u8], prefix: usize) -> (overflow: bool) {
        let prev_bit = if prefix > 0 {
            Some(Self::get(slice, prefix - 1))
        } else {
            None
        };
        let ghost before = slice@;
        let mut overflow = true;
        let mut i: usize = slice.len();
        while i > 0
            invariant_except_break
                overflow,
                forall|j: int| i <= j < before.len() ==> before[j] == 255u8 && slice@[j] == 0u8,
            invariant
                i <= slice@.len(),
                slice@.len() == before.len(),
                forall|j: int| 0 <= j < i ==> slice@[j] == before[j],
            ensures
                carried_bytes(before, slice@, i as int, overflow),
            decreases i,
        {
            i -= 1;
            if slice[i] == 255 {
                slice[i] = 0;
            } else {
                slice[i] = slice[i] + 1;
                overflow = false;
                break ;
            }
        }
        proof {
            lemma_carried_bytes(before, slice@, i as int, overflow);
        }
        let ghost next = Self::bits(slice@);
        match prev_bit {
            Some(prev_bit) => {
                if prev_bit != Self::get(slice, prefix - 1) {
                    Self::flip(slice, prefix - 1);
                    true
                } else {
                    assert(next =~= next.update(prefix - 1, Self::bits(before)[prefix - 1]));
                    false
                }
            },
            None => overflow,
        }
    }

    fn get(slice: &[u8], ndx: usize) -> (bit: bool) {
        let mask = Self::mask(ndx);
        let slice_ndx: usize = ndx / 8;
        let probe: u8 = slice[slice_ndx] & mask;
        proof {
            lemma_byte_masks(ndx as int % 8);
            lemma_byte_ops(slice@[slice_ndx as int], mask);
            lemma_byte_uniform(probe);
            assert(byte_bit(probe, ndx as int % 8) == byte_bit(slice@[slice_ndx as int], ndx as int % 8));
        }
        0 != probe
    }

    fn on(slice: &mut [u8], ndx: usize) {
        let mask = Self::mask(ndx);
        let slice_ndx: usize = ndx / 8;
        proof {
            lemma_byte_masks(ndx as int % 8);
            lemma_byte_ops(slice@[slice_ndx as int], mask);
        }
        slice[slice_ndx] = slice[slice_ndx] | mask;
        proof {
            lemma_bits_update(old(slice)@, slice_ndx as int, slice@[slice_ndx as int]);
            assert(slice@ =~= old(slice)@.update(slice_ndx as int, slice@[slice_ndx as int]));
            assert(Self::bits(slice@) =~= Self::bits(old(slice)@).update(ndx as int, true));
        }
    }

    fn off(slice: &mut [u8], ndx: usize) {
        let mask = Self::mask(ndx);
        let slice_ndx: usize = ndx / 8;
        proof {
            lemma_byte_masks(ndx as int % 8);
            lemma_byte_ops(slice@[slice_ndx as int], !mask);
            lemma_byte_ops(mask, mask);
        }
        slice[slice_ndx] = slice[slice_ndx] & !mask;
        proof {
            lemma_bits_update(old(slice)@, slice_ndx as int, slice@[slice_ndx as int]);
            assert(slice@ =~= old(slice)@.update(slice_ndx as int, slice@[slice_ndx as int]));
            assert(Self::bits(slice@) =~= Self::bits(old(slice)@).update(ndx as int, false));
        }
    }

    fn flip(slice: &mut [u8], ndx: usize) {
        let mask = Self::mask(ndx);
        let slice_ndx: usize = ndx / 8;
        proof {
            lemma_byte_masks(ndx as int % 8);
            lemma_byte_ops(slice@[slice_ndx as int], mask);
        }
        slice[slice_ndx] = slice[slice_ndx] ^ mask;
        proof {
            lemma_bits_update(old(slice)@, slice_ndx as int, slice@[slice_ndx as int]);
            assert(slice@ =~= old(slice)@.update(slice_ndx as int, slice@[slice_ndx as int]));
            assert(Self::bits(slice@) =~= Self::bits(old(slice)@).update(
                ndx as int,
                !Self::bits(old(slice)@)[ndx as int],
            ));
        }
    }

    fn shared_prefix_len(slice: &[u8], other: &[u8], max_len: usize) -> (len: usize) {
        if 0 == max_len {
            return 0;
        }
        let ghost a = Self::bits(slice@);
        let ghost b = Self::bits(other@);
        // slice index of last bit to compare
        let slice_ndx: usize = (max_len - 1) / 8;
        let mut i: usize = 0;
        while i < slice_ndx
            invariant
                i <= slice_ndx,
                slice_ndx == (max_len - 1) / 8,
                max_len <= a.len(),
                max_len <= b.len(),
                a == Self::bits(slice@),
                b == Self::bits(other@),
                forall|j: int| 0 <= j < i ==> slice@[j] == other@[j],
            decreases slice_ndx - i,
        {
            let diff: u8 = slice[i] ^ other[i];
            proof {
                lemma_byte_diff(slice@[i as int], other@[i as int]);
            }
            if 0 != diff {
                let found: usize = i * 8 + diff.leading_zeros() as usize;
                proof {
                    let lz = u8_leading_zeros(diff) as int;
                    assert forall|g: int| 0 <= g < found implies a[g] == b[g] by {
                        if g / 8 == i {
                            assert(g % 8 < lz);
                        } else {
                            assert(slice@[g / 8] == other@[g / 8]);
                        }
                    }
                    assert(found as int / 8 == i && found as int % 8 == lz);
                    lemma_shared_prefix_unique(a, b, max_len as nat, found as nat);
                }
                return found;
            }
            i += 1;
        }
        let diff: u8 = slice[slice_ndx] ^ other[slice_ndx];
        proof {
            lemma_byte_diff(slice@[slice_ndx as int], other@[slice_ndx as int]);
        }
        if 0 != diff {
            let found: usize = slice_ndx * 8 + diff.leading_zeros() as usize;
            proof {
                let lz = u8_leading_zeros(diff) as int;
                assert forall|g: int| 0 <= g < found implies a[g] == b[g] by {
                    if g / 8 == slice_ndx {
                        assert(g % 8 < lz);
                    } else {
                        assert(slice@[g / 8] == other@[g / 8]);
                    }
                }
                assert(found as int / 8 == slice_ndx && found as int % 8 == lz);
                if found < max_len {
                    lemma_shared_prefix_unique(a, b, max_len as nat, found as nat);
                } else {
                    lemma_shared_prefix_unique(a, b, max_len as nat, max_len as nat);
                }
            }
            if found < max_len {
                found
            } else {
                max_len
            }
        } else {
            proof {
                assert forall|g: int| 0 <= g < max_len implies a[g] == b[g] by {
                    assert(slice@[g / 8] == other@[g / 8]);
                }
                lemma_shared_prefix_unique(a, b, max_len as nat, max_len as nat);
            }
            max_len
        }
    }

    fn zeroesfrom(slice: &mut [u8], ndx: usize) {
        fill_from(slice, ndx, false)
    }

    fn is_zeroesfrom(slice: &[u8], ndx: usize) -> (clean: bool) {
        is_filled_from(slice, ndx, false)
    }

    fn onesfrom(slice: &mut [u8], ndx: usize) {
        fill_from(slice, ndx, true)
    }

    fn is_onesfrom(slice: &[u8], ndx: usize) -> (full: bool) {
        is_filled_from(slice, ndx, true)
    }

    fn contains(slice: &[u8], prefix: usize, other: &[u8]) -> (inside: bool) {
        let ghost a = Self::bits(slice@);
        let ghost b = Self::bits(other@);
        let slice_ndx: usize = prefix / 8;
        let mut i: usize = 0;
        while i < slice_ndx
            invariant
                i <= slice_ndx,
                slice_ndx == prefix / 8,
                prefix <= a.len(),
                prefix <= b.len(),
                a == Self::bits(slice@),
                b == Self::bits(other@),
                forall|j: int| 0 <= j < i ==> slice@[j] == other@[j],
            decreases slice_ndx - i,
        {
            if slice[i] != other[i] {
                proof {
                    lemma_byte_diff(slice@[i as int], other@[i as int]);
                    let g = 8 * i + u8_leading_zeros(slice@[i as int] ^ other@[i as int]);
                    assert(g / 8 == i && g % 8 == u8_leading_zeros(
                        slice@[i as int] ^ other@[i as int],
                    ));
                    assert(a[g] != b[g]);
                }
                return false;
            }
            i += 1;
        }
        if 0 == prefix % 8 {
            proof {
                assert forall|g: int| 0 <= g < prefix implies a[g] == b[g] by {
                    assert(slice@[g / 8] == other@[g / 8]);
                }
            }
            return true;
        }
        proof {
            lemma_byte_masks((prefix - 1) % 8);
        }
        let mask: u8 = !(Self::mask(prefix - 1) - 1);
        let probe: u8 = mask & (slice[slice_ndx] ^ other[slice_ndx]);
        proof {
            let k = (prefix - 1) % 8;
            let low = (byte_mask(k) - 1) as u8;
            let x = slice@[slice_ndx as int];
            let y = other@[slice_ndx as int];
            lemma_byte_masks(k);
            lemma_byte_ops(low, low);
            lemma_byte_ops(x, y);
            lemma_byte_ops(mask, x ^ y);
            lemma_byte_uniform(probe);
            if probe == 0 {
                assert forall|g: int| 0 <= g < prefix implies a[g] == b[g] by {
                    if g / 8 == slice_ndx {
                        assert(!byte_bit(probe, g % 8));
                    } else {
                        assert(slice@[g / 8] == other@[g / 8]);
                    }
                }
            } else {
                let p = choose|p: int| 0 <= p < 8 && byte_bit(probe, p);
                let g = 8 * slice_ndx + p;
                assert(g / 8 == slice_ndx && g % 8 == p);
                assert(a[g] != b[g]);
            }
        }
        0 == probe
    }
}

} // verus!
