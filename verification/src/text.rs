//! Fields of bytes within a text, and the numbers that they spell.

use vstd::prelude::*;
use vstd::slice::slice_subrange;

verus! {

/// The byte `'.'`.
pub const DOT: u8 = 46;

/// The byte `':'`.
pub const COLON: u8 = 58;

/// The byte `'/'`.
pub const SLASH: u8 = 47;

/// The byte `'+'`.
pub const PLUS: u8 = 43;

/// Whether `byte` is one of `'0'` to `'9'`.
pub open spec fn is_digit(byte: u8) -> bool {
    48 <= byte <= 57
}

/// Whether every byte of `text` is a decimal digit.
pub open spec fn all_digits(text: Seq<u8>) -> bool {
    forall|i: int| 0 <= i < text.len() ==> is_digit(#[trigger] text[i])
}

/// The integer that a string of decimal digits spells.
pub open spec fn decimal_value(digits: Seq<u8>) -> nat
    decreases digits.len(),
{
    if digits.len() == 0 {
        0
    } else {
        10 * decimal_value(digits.drop_last()) + (digits.last() - 48) as nat
    }
}

/// The number below 256 that `text` spells in decimal digits, leading zeroes allowed.
pub open spec fn decimal_text(text: Seq<u8>) -> Option<u8> {
    if text.len() > 0 && all_digits(text) && decimal_value(text) <= 255 {
        Some(decimal_value(text) as u8)
    } else {
        None
    }
}

/// The value of a hexadecimal digit of either case.
pub open spec fn hex_digit(byte: u8) -> Option<nat> {
    if 48 <= byte <= 57 {
        Some((byte - 48) as nat)
    } else if 97 <= byte <= 102 {
        Some((byte - 87) as nat)
    } else if 65 <= byte <= 70 {
        Some((byte - 55) as nat)
    } else {
        None
    }
}

/// Whether every byte of `text` is a hexadecimal digit.
pub open spec fn all_hex(text: Seq<u8>) -> bool {
    forall|i: int| 0 <= i < text.len() ==> hex_digit(#[trigger] text[i]) is Some
}

/// The integer that a string of hexadecimal digits spells.
pub open spec fn hex_value(digits: Seq<u8>) -> nat
    decreases digits.len(),
{
    if digits.len() == 0 {
        0
    } else {
        16 * hex_value(digits.drop_last()) + hex_digit(digits.last()).unwrap()
    }
}

/// The index of the first `sep` in `text` at or after `from`, or the length
/// of `text` if there is none: where the field that starts at `from` ends.
pub open spec fn field_end(text: Seq<u8>, from: int, sep: u8) -> int
    decreases text.len() - from,
{
    if from >= text.len() {
        text.len() as int
    } else if text[from] == sep {
        from
    } else {
        field_end(text, from + 1, sep)
    }
}

/// The index of the last `sep` in `text`, if there is one.
pub open spec fn last_index(text: Seq<u8>, sep: u8) -> Option<int>
    decreases text.len(),
{
    if text.len() == 0 {
        None
    } else if text.last() == sep {
        Some(text.len() - 1)
    } else {
        last_index(text.drop_last(), sep)
    }
}

/// What `field_end` finds: no `sep` lies between `from` and it, and it is
/// either at a `sep` or at the end of the text.
pub proof fn lemma_field_end(text: Seq<u8>, from: int, sep: u8)
    requires
        0 <= from <= text.len(),
    ensures
        from <= field_end(text, from, sep) <= text.len(),
        forall|i: int| from <= i < field_end(text, from, sep) ==> text[i] != sep,
        field_end(text, from, sep) < text.len() ==> text[field_end(text, from, sep)] == sep,
    decreases text.len() - from,
{
    if from < text.len() && text[from] != sep {
        lemma_field_end(text, from + 1, sep);
    }
}

/// What `last_index` finds: a `sep` after which no other follows, or that there is none.
pub proof fn lemma_last_index(text: Seq<u8>, sep: u8)
    ensures
        match last_index(text, sep) {
            Some(at) => 0 <= at < text.len() && text[at] == sep && forall|i: int|
                at < i < text.len() ==> text[i] != sep,
            None => forall|i: int| 0 <= i < text.len() ==> text[i] != sep,
        },
    decreases text.len(),
{
    if text.len() > 0 && text.last() != sep {
        let init = text.drop_last();
        lemma_last_index(init, sep);
        assert(forall|i: int| 0 <= i < init.len() ==> init[i] == text[i]);
    }
}

/// A string of digits spells at least what any of its prefixes spells.
pub proof fn lemma_decimal_prefix(digits: Seq<u8>, count: int)
    requires
        0 <= count <= digits.len(),
        all_digits(digits),
    ensures
        decimal_value(digits.take(count)) <= decimal_value(digits),
    decreases digits.len() - count,
{
    if count < digits.len() {
        let init = digits.drop_last();
        assert(all_digits(init)) by {
            assert forall|i: int| 0 <= i < init.len() implies is_digit(#[trigger] init[i]) by {
                assert(init[i] == digits[i]);
            }
        }
        assert(is_digit(digits[digits.len() - 1]));
        if count < init.len() {
            lemma_decimal_prefix(init, count);
        }
        assert(init.take(count) =~= digits.take(count));
        assert(init.take(init.len() as int) =~= init);
    } else {
        assert(digits.take(count) =~= digits);
    }
}

/// The index at which the field that starts at `from` ends.
pub fn find_byte(text: &[u8], from: usize, sep: u8) -> (end: usize)
    requires
        from <= text@.len(),
    ensures
        end == field_end(text@, from as int, sep),
        from <= end <= text@.len(),
{
    let mut i: usize = from;
    while i < text.len() && text[i] != sep
        invariant
            from <= i <= text@.len(),
            field_end(text@, from as int, sep) == field_end(text@, i as int, sep),
        decreases text@.len() - i,
    {
        i += 1;
    }
    i
}

/// The index of the last `sep` in `text`, if there is one.
pub fn rfind_byte(text: &[u8], sep: u8) -> (found: Option<usize>)
    ensures
        match found {
            Some(at) => last_index(text@, sep) == Some(at as int),
            None => last_index(text@, sep) is None,
        },
{
    let mut i: usize = text.len();
    assert(text@.take(i as int) =~= text@);
    while i > 0
        invariant
            i <= text@.len(),
            last_index(text@, sep) == last_index(text@.take(i as int), sep),
        decreases i,
    {
        i -= 1;
        if text[i] == sep {
            assert(text@.take(i + 1).last() == sep);
            return Some(i);
        }
        assert(text@.take(i + 1).drop_last() =~= text@.take(i as int));
    }
    assert(text@.take(0).len() == 0);
    None
}

/// The number below 256 that `text` spells in decimal digits.
pub fn parse_decimal(text: &[u8]) -> (number: Option<u8>)
    ensures
        number == decimal_text(text@),
{
    if text.len() == 0 {
        return None;
    }
    let mut value: u16 = 0;
    let mut i: usize = 0;
    while i < text.len()
        invariant
            i <= text@.len(),
            all_digits(text@.take(i as int)),
            value == decimal_value(text@.take(i as int)),
            value <= 255,
        decreases text@.len() - i,
    {
        let byte = text[i];
        if byte < 48 || byte > 57 {
            assert(!is_digit(text@[i as int]));
            return None;
        }
        value = value * 10 + (byte - 48) as u16;
        i += 1;
        proof {
            let taken = text@.take(i as int);
            assert(taken.drop_last() =~= text@.take(i - 1));
            assert(taken.last() == byte);
            assert forall|j: int| 0 <= j < taken.len() implies is_digit(#[trigger] taken[j]) by {
                if j < i - 1 {
                    assert(text@.take(i - 1)[j] == taken[j]);
                }
            }
        }
        if value > 255 {
            proof {
                if all_digits(text@) {
                    lemma_decimal_prefix(text@, i as int);
                }
            }
            return None;
        }
    }
    assert(text@.take(i as int) =~= text@);
    Some(value as u8)
}

/// The bytes of `text` from `from` up to `to`.
pub fn field<'a>(text: &'a [u8], from: usize, to: usize) -> (part: &'a [u8])
    requires
        from <= to <= text@.len(),
    ensures
        part@ == text@.subrange(from as int, to as int),
{
    slice_subrange(text, from, to)
}

} // verus!
