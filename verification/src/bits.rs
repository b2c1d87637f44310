//! The mathematical model of a bit array: a sequence of booleans in which
//! index 0 is the most significant bit.

use vstd::prelude::*;
use vstd::arithmetic::power2::{pow2, lemma_pow2_pos, lemma_pow2_unfold};

verus! {

/// The bit string that keeps `bits` before `ndx` and holds `value` from `ndx` on.
pub open spec fn filled_from(bits: Seq<bool>, ndx: int, value: bool) -> Seq<bool> {
    Seq::new(bits.len(), |i: int| if i < ndx { bits[i] } else { value })
}

/// Whether every bit of `bits` at an index of at least `ndx` equals `value`.
pub open spec fn all_from(bits: Seq<bool>, ndx: int, value: bool) -> bool {
    forall|i: int| 0 <= i < bits.len() && ndx <= i ==> bits[i] == value
}

/// Whether `a` and `b` hold the same bit at every index below `prefix`.
pub open spec fn agree_upto(a: Seq<bool>, b: Seq<bool>, prefix: int) -> bool {
    forall|i: int| 0 <= i < prefix ==> a[i] == b[i]
}

/// The number of leading bits on which `a` and `b` agree, counted no further than `max_len`.
pub open spec fn shared_prefix(a: Seq<bool>, b: Seq<bool>, max_len: nat) -> nat
    decreases max_len,
{
    if max_len == 0 {
        0
    } else {
        let shorter = shared_prefix(a, b, (max_len - 1) as nat);
        if shorter == max_len - 1 && a[max_len - 1] == b[max_len - 1] {
            max_len
        } else {
            shorter
        }
    }
}

/// The unsigned integer that `bits` spells, most significant bit first.
pub open spec fn bits_value(bits: Seq<bool>) -> nat
    decreases bits.len(),
{
    if bits.len() == 0 {
        0
    } else {
        2 * bits_value(bits.drop_last()) + if bits.last() {
            1nat
        } else {
            0nat
        }
    }
}

/// The bit string of the same length that spells the next integer, wrapping
/// from all ones to all zeroes: a bit changes exactly when every less
/// significant bit is 1.
pub open spec fn successor(bits: Seq<bool>) -> Seq<bool> {
    Seq::new(bits.len(), |i: int| bits[i] != all_from(bits, i + 1, true))
}

/// The outcome of incrementing `bits` under a guard on its first `prefix`
/// bits: the new bit string, and whether the increment carried out of the
/// bits from `prefix` on. With a guard, the last guarded bit keeps its value.
pub open spec fn inc_guarded(bits: Seq<bool>, prefix: nat) -> (Seq<bool>, bool) {
    if prefix == 0 {
        (successor(bits), all_from(bits, 0, true))
    } else {
        (successor(bits).update(prefix - 1, bits[prefix - 1]), all_from(bits, prefix as int, true))
    }
}

/// The bit string reached from `bits` by `count` unguarded increments.
pub open spec fn successor_iter(bits: Seq<bool>, count: nat) -> Seq<bool>
    decreases count,
{
    if count == 0 {
        bits
    } else {
        successor(successor_iter(bits, (count - 1) as nat))
    }
}

/// `shared_prefix` is the one length up to `max_len` below which the two bit
/// strings agree and at which, if it is short of `max_len`, they differ.
pub proof fn lemma_shared_prefix_unique(a: Seq<bool>, b: Seq<bool>, max_len: nat, len: nat)
    requires
        len <= max_len,
        agree_upto(a, b, len as int),
        len < max_len ==> a[len as int] != b[len as int],
    ensures
        shared_prefix(a, b, max_len) == len,
    decreases max_len,
{
    if max_len > 0 {
        if len < max_len {
            lemma_shared_prefix_unique(a, b, (max_len - 1) as nat, len);
        } else {
            lemma_shared_prefix_unique(a, b, (max_len - 1) as nat, (len - 1) as nat);
        }
    }
}

/// The bits below `shared_prefix` agree, and the bit at it differs if it is short of `max_len`.
pub proof fn lemma_shared_prefix_agrees(a: Seq<bool>, b: Seq<bool>, max_len: nat)
    ensures
        shared_prefix(a, b, max_len) <= max_len,
        agree_upto(a, b, shared_prefix(a, b, max_len) as int),
        shared_prefix(a, b, max_len) < max_len ==> a[shared_prefix(a, b, max_len) as int]
            != b[shared_prefix(a, b, max_len) as int],
    decreases max_len,
{
    if max_len > 0 {
        lemma_shared_prefix_agrees(a, b, (max_len - 1) as nat);
    }
}

/// A bit string of length `n` spells an integer below `2^n`.
pub proof fn lemma_bits_value_bound(bits: Seq<bool>)
    ensures
        bits_value(bits) < pow2(bits.len()),
    decreases bits.len(),
{
    if bits.len() == 0 {
        lemma_pow2_pos(0);
    } else {
        lemma_bits_value_bound(bits.drop_last());
        lemma_pow2_unfold(bits.len());
    }
}

/// Two bit strings of one length that spell the same integer are the same.
pub proof fn lemma_bits_value_injective(a: Seq<bool>, b: Seq<bool>)
    requires
        a.len() == b.len(),
        bits_value(a) == bits_value(b),
    ensures
        a == b,
    decreases a.len(),
{
    if a.len() > 0 {
        lemma_bits_value_injective(a.drop_last(), b.drop_last());
        assert(a.last() == b.last());
        assert(a =~= a.drop_last().push(a.last()));
        assert(b =~= b.drop_last().push(b.last()));
    } else {
        assert(a =~= b);
    }
}

/// The successor spells the next integer modulo `2^n`.
pub proof fn lemma_successor_value(bits: Seq<bool>)
    ensures
        successor(bits).len() == bits.len(),
        bits_value(successor(bits)) == (bits_value(bits) + 1) % pow2(bits.len()),
        all_from(bits, 0, true) <==> bits_value(bits) + 1 == pow2(bits.len()),
    decreases bits.len(),
{
    let n = bits.len();
    let next = successor(bits);
    lemma_bits_value_bound(bits);
    if n == 0 {
        lemma_pow2_pos(0);
        assert(pow2(0) == 1) by {
            vstd::arithmetic::power2::lemma2_to64();
        }
    } else {
        let init = bits.drop_last();
        lemma_successor_value(init);
        lemma_bits_value_bound(init);
        lemma_pow2_unfold(n);
        let half = pow2((n - 1) as nat);
        if bits.last() {
            assert forall|i: int| 0 <= i < n - 1 implies #[trigger] next[i] == successor(init)[i] by {
                if all_from(init, i + 1, true) {
                    assert forall|j: int| 0 <= j < n && i + 1 <= j implies bits[j] == true by {
                        if j < n - 1 {
                            assert(init[j] == true);
                        }
                    }
                } else {
                    let j = choose|j: int| 0 <= j < init.len() && i + 1 <= j && init[j] != true;
                    assert(bits[j] == init[j]);
                }
            }
            assert(next.drop_last() =~= successor(init));
            assert(next.last() == false);
            if all_from(init, 0, true) {
                assert forall|j: int| 0 <= j < n implies bits[j] == true by {
                    if j < n - 1 {
                        assert(init[j] == true);
                    }
                }
                assert(all_from(bits, 0, true));
                assert((bits_value(init) + 1) % half == 0) by {
                    vstd::arithmetic::div_mod::lemma_mod_self_0(half as int);
                }
                assert((bits_value(bits) + 1) % (2 * half) == 0) by {
                    vstd::arithmetic::div_mod::lemma_mod_self_0(2 * half as int);
                }
            } else {
                let j = choose|j: int| 0 <= j < init.len() && 0 <= j && init[j] != true;
                assert(bits[j] == init[j]);
                assert(!all_from(bits, 0, true));
                assert((bits_value(init) + 1) % half == bits_value(init) + 1) by {
                    vstd::arithmetic::div_mod::lemma_small_mod(bits_value(init) + 1, half);
                }
                assert((bits_value(bits) + 1) % (2 * half) == bits_value(bits) + 1) by {
                    vstd::arithmetic::div_mod::lemma_small_mod(
                        bits_value(bits) + 1,
                        2 * half,
                    );
                }
            }
        } else {
            assert(bits[n - 1] == false);
            assert(!all_from(bits, 0, true));
            assert forall|i: int| 0 <= i < n - 1 implies #[trigger] next[i] == init[i] by {
                assert(bits[n - 1] == false);
            }
            assert(next.drop_last() =~= init);
            assert(next.last() == true);
            assert((bits_value(bits) + 1) % (2 * half) == bits_value(bits) + 1) by {
                vstd::arithmetic::div_mod::lemma_small_mod(
                    bits_value(bits) + 1,
                    2 * half,
                );
            }
        }
    }
}

/// Writing a bit and reading it back gives the bit written, and no other bit changes.
pub proof fn lemma_update_reads_back(bits: Seq<bool>, ndx: int, bit: bool)
    requires
        0 <= ndx < bits.len(),
    ensures
        bits.update(ndx, bit).len() == bits.len(),
        bits.update(ndx, bit)[ndx] == bit,
        forall|j: int| 0 <= j < bits.len() && j != ndx ==> bits.update(ndx, bit)[j] == bits[j],
{
}

/// A bit string shares every counted bit with itself.
pub proof fn lemma_shared_prefix_reflexive(a: Seq<bool>, max_len: nat)
    ensures
        shared_prefix(a, a, max_len) == max_len,
{
    lemma_shared_prefix_unique(a, a, max_len, max_len);
}

/// The shared prefix never exceeds the cap, and is 0 under a cap of 0.
pub proof fn lemma_shared_prefix_bounded(a: Seq<bool>, b: Seq<bool>, max_len: nat)
    ensures
        shared_prefix(a, b, max_len) <= max_len,
        shared_prefix(a, b, 0) == 0,
{
    lemma_shared_prefix_agrees(a, b, max_len);
}

/// After a fill from `ndx`, every bit from `ndx` on holds the fill value and
/// the bits before it are unchanged; filling again changes nothing.
pub proof fn lemma_filled_is_all(bits: Seq<bool>, ndx: int, value: bool)
    ensures
        all_from(filled_from(bits, ndx, value), ndx, value),
        forall|i: int|
            0 <= i < bits.len() && i < ndx ==> filled_from(bits, ndx, value)[i] == bits[i],
        filled_from(filled_from(bits, ndx, value), ndx, value) == filled_from(bits, ndx, value),
{
    assert(filled_from(filled_from(bits, ndx, value), ndx, value) =~= filled_from(
        bits,
        ndx,
        value,
    ));
}

/// A fill changes nothing exactly when every bit from `ndx` on already holds the value.
pub proof fn lemma_fill_is_noop(bits: Seq<bool>, ndx: int, value: bool)
    ensures
        all_from(bits, ndx, value) <==> filled_from(bits, ndx, value) == bits,
{
    if all_from(bits, ndx, value) {
        assert(filled_from(bits, ndx, value) =~= bits);
    }
    if filled_from(bits, ndx, value) == bits {
        assert forall|i: int| 0 <= i < bits.len() && ndx <= i implies bits[i] == value by {
            assert(filled_from(bits, ndx, value)[i] == value);
        }
    }
}

/// A bit string agrees with itself on every prefix.
pub proof fn lemma_agree_reflexive(a: Seq<bool>, prefix: int)
    ensures
        agree_upto(a, a, prefix),
{
}

/// Agreement on a prefix carries over to every shorter prefix.
pub proof fn lemma_agree_monotone(a: Seq<bool>, b: Seq<bool>, prefix: int, shorter: int)
    requires
        agree_upto(a, b, prefix),
        shorter <= prefix,
    ensures
        agree_upto(a, b, shorter),
{
}

/// Two bit strings agree on a prefix exactly when their shared prefix reaches it.
pub proof fn lemma_agree_is_shared_prefix(a: Seq<bool>, b: Seq<bool>, prefix: nat)
    ensures
        agree_upto(a, b, prefix as int) <==> shared_prefix(a, b, prefix) == prefix,
{
    lemma_shared_prefix_agrees(a, b, prefix);
    if agree_upto(a, b, prefix as int) {
        lemma_shared_prefix_unique(a, b, prefix, prefix);
    }
}

/// A guarded increment reports a carry exactly when every bit from `prefix`
/// on was 1. Without a carry the guarded bits are unchanged; with one, the
/// bits from `prefix` on are all 0 afterwards.
pub proof fn lemma_inc_guarded_carry(bits: Seq<bool>, prefix: nat)
    requires
        prefix <= bits.len(),
    ensures
        inc_guarded(bits, prefix).0.len() == bits.len(),
        inc_guarded(bits, prefix).1 == all_from(bits, prefix as int, true),
        !inc_guarded(bits, prefix).1 ==> agree_upto(inc_guarded(bits, prefix).0, bits, prefix as int),
        inc_guarded(bits, prefix).1 ==> all_from(inc_guarded(bits, prefix).0, prefix as int, false),
{
    let after = inc_guarded(bits, prefix).0;
    if !inc_guarded(bits, prefix).1 {
        let z = choose|z: int| 0 <= z < bits.len() && prefix <= z && bits[z] != true;
        assert forall|i: int| 0 <= i < prefix implies after[i] == bits[i] by {
            assert(!all_from(bits, i + 1, true));
        }
    } else {
        assert forall|i: int| 0 <= i < bits.len() && prefix <= i implies after[i] == false by {
            assert(bits[i] == true);
            assert(all_from(bits, i + 1, true));
        }
    }
}

/// After `count` unguarded increments the bit string spells the integer
/// that lies `count` further on, modulo `2^n`.
pub proof fn lemma_successor_iter_value(bits: Seq<bool>, count: nat)
    ensures
        successor_iter(bits, count).len() == bits.len(),
        bits_value(successor_iter(bits, count)) == (bits_value(bits) + count) % pow2(bits.len()),
    decreases count,
{
    let modulus = pow2(bits.len());
    lemma_pow2_pos(bits.len());
    lemma_bits_value_bound(bits);
    if count == 0 {
        vstd::arithmetic::div_mod::lemma_small_mod(bits_value(bits), modulus);
    } else {
        let previous = successor_iter(bits, (count - 1) as nat);
        lemma_successor_iter_value(bits, (count - 1) as nat);
        lemma_successor_value(previous);
        vstd::arithmetic::div_mod::lemma_add_mod_noop_right(
            1,
            bits_value(bits) + count - 1,
            modulus as int,
        );
    }
}

/// Incrementing an `n`-bit string `2^n` times without a guard leads back to
/// it, and of those `2^n` increments exactly one starts from all ones and so
/// reports a carry: the one numbered `2^n - 1 - bits_value(bits)`.
pub proof fn lemma_successor_cycle(bits: Seq<bool>)
    ensures
        successor_iter(bits, pow2(bits.len())) == bits,
        forall|count: nat|
            count < pow2(bits.len()) ==> (#[trigger] inc_guarded(
                successor_iter(bits, count),
                0,
            ).1 <==> count == pow2(bits.len()) - 1 - bits_value(bits)),
{
    let modulus = pow2(bits.len());
    let value = bits_value(bits);
    lemma_pow2_pos(bits.len());
    lemma_bits_value_bound(bits);
    lemma_successor_iter_value(bits, modulus);
    vstd::arithmetic::div_mod::lemma_mod_add_multiples_vanish(value as int, modulus as int);
    vstd::arithmetic::div_mod::lemma_small_mod(value, modulus);
    lemma_bits_value_injective(successor_iter(bits, modulus), bits);
    assert forall|count: nat| count < modulus implies (#[trigger] inc_guarded(
        successor_iter(bits, count),
        0,
    ).1 <==> count == modulus - 1 - value) by {
        let reached = successor_iter(bits, count);
        lemma_successor_iter_value(bits, count);
        lemma_successor_value(reached);
        if value + count < modulus {
            vstd::arithmetic::div_mod::lemma_small_mod(value + count, modulus);
        } else {
            vstd::arithmetic::div_mod::lemma_mod_add_multiples_vanish(
                value + count - modulus,
                modulus as int,
            );
            vstd::arithmetic::div_mod::lemma_small_mod((value + count - modulus) as nat, modulus);
        }
    }
}

} // verus!
