//! What the library writes, it reads back: the text of an address or of a
//! network spells that address or network again.

use vstd::prelude::*;
use crate::address::{IpAddress, Ipv4Address, Ipv6Address};
use crate::cidr::from_str::{cidr_text, length_text};
use crate::format::{
    cidr_format, decimal_digits, groups_format, hex_char, hex_digits, ipv4_format, ipv6_format,
    is_v4_mapped, longest_run_start, octet_groups, zero_run,
};
use crate::local_addr_parser::{
    double_colon, group_octets, group_text, ipv4_octets, ipv4_of, ipv4_text, ipv6_group_list,
    ipv6_groups, ipv6_of, ipv6_text, octet_text, quad_groups, ParseableAddress,
};
use crate::text::{
    all_digits, all_hex, decimal_text, decimal_value, field_end, hex_digit, hex_value, is_digit,
    last_index, lemma_field_end, COLON, DOT, SLASH,
};
use crate::traits::{checked_network, Cidr};

verus! {

/// The decimal digits of a number are digits that spell it, and begin with
/// a zero only if they are the single digit 0.
pub proof fn lemma_decimal_digits(n: nat)
    ensures
        decimal_digits(n).len() >= 1,
        n < 10 ==> decimal_digits(n).len() == 1,
        10 <= n < 100 ==> decimal_digits(n).len() == 2,
        100 <= n < 1000 ==> decimal_digits(n).len() == 3,
        all_digits(decimal_digits(n)),
        decimal_value(decimal_digits(n)) == n,
        n >= 10 ==> decimal_digits(n)[0] != 48,
    decreases n,
{
    let digits = decimal_digits(n);
    if n < 10 {
        assert(digits.drop_last() =~= Seq::<u8>::empty());
        assert(decimal_value(digits.drop_last()) == 0);
    } else {
        let init = decimal_digits(n / 10);
        lemma_decimal_digits(n / 10);
        assert(digits.drop_last() =~= init);
        assert(digits[0] == init[0]);
        assert forall|i: int| 0 <= i < digits.len() implies is_digit(#[trigger] digits[i]) by {
            if i < init.len() {
                assert(digits[i] == init[i]);
            }
        }
    }
}

/// The decimal digits of a byte spell it, as a field of a dotted quad too.
pub proof fn lemma_decimal_reads_back(n: u8)
    ensures
        decimal_text(decimal_digits(n as nat)) == Some(n),
        octet_text(decimal_digits(n as nat)) == Some(n),
{
    lemma_decimal_digits(n as nat);
}

/// The hexadecimal digits of a number are digits that spell it.
pub proof fn lemma_hex_digits(n: nat)
    ensures
        hex_digits(n).len() >= 1,
        n < 0x10 ==> hex_digits(n).len() == 1,
        0x10 <= n < 0x100 ==> hex_digits(n).len() == 2,
        0x100 <= n < 0x1000 ==> hex_digits(n).len() == 3,
        0x1000 <= n < 0x10000 ==> hex_digits(n).len() == 4,
        all_hex(hex_digits(n)),
        hex_value(hex_digits(n)) == n,
    decreases n,
{
    let digits = hex_digits(n);
    if n < 16 {
        assert(digits.drop_last() =~= Seq::<u8>::empty());
        assert(hex_value(digits.drop_last()) == 0);
        assert(hex_digit(hex_char(n)) == Some(n));
    } else {
        let init = hex_digits(n / 16);
        lemma_hex_digits(n / 16);
        assert(digits.drop_last() =~= init);
        assert(hex_digit(hex_char(n % 16)) == Some(n % 16));
        assert forall|i: int| 0 <= i < digits.len() implies hex_digit(#[trigger] digits[i])
            is Some by {
            if i < init.len() {
                assert(digits[i] == init[i]);
            }
        }
    }
}

/// The hexadecimal digits of a group spell it.
pub proof fn lemma_hex_reads_back(n: u16)
    ensures
        group_text(hex_digits(n as nat)) == Some(n),
{
    lemma_hex_digits(n as nat);
}

/// A field ends at the first separator after its start, or at the end of the text.
pub proof fn lemma_field_end_is(text: Seq<u8>, from: int, end: int, sep: u8)
    requires
        0 <= from <= end <= text.len(),
        forall|i: int| from <= i < end ==> text[i] != sep,
        end == text.len() || text[end] == sep,
    ensures
        field_end(text, from, sep) == end,
    decreases end - from,
{
    if from < end {
        lemma_field_end_is(text, from + 1, end, sep);
    }
}

/// The dotted quad of four bytes spells those bytes.
pub proof fn lemma_ipv4_reads_back(octets: Seq<u8>)
    requires
        octets.len() == 4,
    ensures
        ipv4_text(ipv4_format(octets)) == Some(octets),
{
    let text = ipv4_format(octets);
    let d0 = decimal_digits(octets[0] as nat);
    let d1 = decimal_digits(octets[1] as nat);
    let d2 = decimal_digits(octets[2] as nat);
    let d3 = decimal_digits(octets[3] as nat);
    lemma_decimal_digits(octets[0] as nat);
    lemma_decimal_digits(octets[1] as nat);
    lemma_decimal_digits(octets[2] as nat);
    lemma_decimal_digits(octets[3] as nat);
    lemma_decimal_reads_back(octets[0]);
    lemma_decimal_reads_back(octets[1]);
    lemma_decimal_reads_back(octets[2]);
    lemma_decimal_reads_back(octets[3]);
    let e0 = d0.len() as int;
    let s1 = e0 + 1;
    let e1 = s1 + d1.len();
    let s2 = e1 + 1;
    let e2 = s2 + d2.len();
    let s3 = e2 + 1;
    let e3 = s3 + d3.len();
    assert(text.len() == e3);
    assert(text.subrange(0, e0) =~= d0);
    assert(text.subrange(s1, e1) =~= d1);
    assert(text.subrange(s2, e2) =~= d2);
    assert(text.subrange(s3, e3) =~= d3);
    assert forall|i: int| 0 <= i < e0 implies text[i] != DOT by {
        assert(is_digit(d0[i]));
    }
    assert forall|i: int| s1 <= i < e1 implies text[i] != DOT by {
        assert(is_digit(d1[i - s1]));
    }
    assert forall|i: int| s2 <= i < e2 implies text[i] != DOT by {
        assert(is_digit(d2[i - s2]));
    }
    assert forall|i: int| s3 <= i < e3 implies text[i] != DOT by {
        assert(is_digit(d3[i - s3]));
    }
    lemma_field_end_is(text, 0, e0, DOT);
    lemma_field_end_is(text, s1, e1, DOT);
    lemma_field_end_is(text, s2, e2, DOT);
    lemma_field_end_is(text, s3, e3, DOT);
    assert(ipv4_octets(text, s3, 1) == Some(seq![octets[3]]));
    assert(ipv4_octets(text, s2, 2) == Some(seq![octets[2]] + seq![octets[3]]));
    assert(ipv4_octets(text, s1, 3) == Some(seq![octets[1]] + (seq![octets[2]] + seq![octets[3]])));
    assert(ipv4_octets(text, 0, 4) == Some(
        seq![octets[0]] + (seq![octets[1]] + (seq![octets[2]] + seq![octets[3]])),
    ));
    assert(seq![octets[0]] + (seq![octets[1]] + (seq![octets[2]] + seq![octets[3]])) =~= octets);
}

/// Whether a byte may stand in the text of an address: a hexadecimal digit,
/// a dot or a colon.
pub open spec fn is_address_byte(byte: u8) -> bool {
    hex_digit(byte) is Some || byte == DOT || byte == COLON
}

/// Whether every byte of `text` may stand in the text of an address.
pub open spec fn address_bytes(text: Seq<u8>) -> bool {
    forall|i: int| 0 <= i < text.len() ==> is_address_byte(#[trigger] text[i])
}

/// Whether `text` holds a colon at `at` and another right after it.
pub open spec fn double_at(text: Seq<u8>, at: int) -> bool {
    text[at] == COLON && text[at + 1] == COLON
}

/// The first `::` is where no other stands before it.
pub proof fn lemma_double_colon_is(text: Seq<u8>, from: int, at: int)
    requires
        0 <= from <= at,
        at + 1 < text.len(),
        double_at(text, at),
        forall|i: int| from <= i < at ==> !double_at(text, i),
    ensures
        double_colon(text, from) == Some(at),
    decreases at - from,
{
    if from < at {
        assert(!double_at(text, from));
        lemma_double_colon_is(text, from + 1, at);
    }
}

/// There is no `::` where no colon follows another.
pub proof fn lemma_no_double_colon(text: Seq<u8>, from: int)
    requires
        0 <= from,
        forall|i: int| from <= i && i + 1 < text.len() ==> !double_at(text, i),
    ensures
        double_colon(text, from) is None,
    decreases text.len() - from,
{
    if from + 1 < text.len() {
        assert(!double_at(text, from));
        lemma_no_double_colon(text, from + 1);
    }
}

/// A text that holds a colon is no dotted quad.
pub proof fn lemma_colon_is_no_quad(text: Seq<u8>, from: int, count: nat, at: int)
    requires
        0 <= from <= at < text.len(),
        text[at] == COLON,
    ensures
        ipv4_octets(text, from, count) is None,
    decreases count,
{
    let end = field_end(text, from, DOT);
    lemma_field_end(text, from, DOT);
    if count > 0 {
        let field = text.subrange(from, end);
        if at < end {
            assert(field[at - from] == COLON);
            assert(!is_digit(field[at - from]));
        } else if count > 1 && end < text.len() {
            lemma_colon_is_no_quad(text, end + 1, (count - 1) as nat, at);
        }
    }
}

/// The text of two or more groups is the first group, a colon, and the text of the others.
pub proof fn lemma_groups_format_first(groups: Seq<u16>)
    requires
        groups.len() >= 2,
    ensures
        groups_format(groups) == hex_digits(groups[0] as nat) + seq![COLON] + groups_format(
            groups.skip(1),
        ),
    decreases groups.len(),
{
    let init = groups.drop_last();
    let tail = groups.skip(1);
    assert(init[0] == groups[0]);
    assert(tail.last() == groups.last());
    if groups.len() == 2 {
        assert(groups_format(init) == hex_digits(groups[0] as nat));
        assert(groups_format(tail) == hex_digits(groups[1] as nat));
    } else {
        lemma_groups_format_first(init);
        assert(init.skip(1) =~= tail.drop_last());
        assert(groups_format(groups) =~= hex_digits(groups[0] as nat) + seq![COLON]
            + groups_format(tail));
    }
}

/// In the text of groups every byte is a hexadecimal digit or a colon, the
/// text neither begins nor ends with a colon, and no colon follows another.
pub proof fn lemma_groups_format_shape(groups: Seq<u16>)
    ensures
        address_bytes(groups_format(groups)),
        forall|i: int| 0 <= i < groups_format(groups).len() ==> groups_format(groups)[i] != DOT,
        groups.len() >= 1 ==> groups_format(groups).len() >= 1 && groups_format(groups)[0] != COLON
            && groups_format(groups).last() != COLON,
        groups.len() == 0 ==> groups_format(groups).len() == 0,
        forall|i: int|
            0 <= i && i + 1 < groups_format(groups).len() ==> !double_at(groups_format(groups), i),
    decreases groups.len(),
{
    let text = groups_format(groups);
    if groups.len() >= 1 {
        let last = hex_digits(groups.last() as nat);
        lemma_hex_digits(groups.last() as nat);
        assert forall|i: int| 0 <= i < last.len() implies last[i] != COLON && last[i] != DOT by {
            assert(hex_digit(last[i]) is Some);
        }
        if groups.len() >= 2 {
            let init = groups_format(groups.drop_last());
            lemma_groups_format_shape(groups.drop_last());
            assert(text =~= init + seq![COLON] + last);
            assert forall|i: int| 0 <= i < text.len() implies is_address_byte(#[trigger] text[i])
                && text[i] != DOT by {
                if i < init.len() {
                    assert(text[i] == init[i]);
                } else if i > init.len() {
                    assert(text[i] == last[i - init.len() - 1]);
                    assert(hex_digit(last[i - init.len() - 1]) is Some);
                }
            }
            assert forall|i: int| 0 <= i && i + 1 < text.len() implies !double_at(text, i) by {
                if i + 1 < init.len() {
                    assert(!double_at(init, i));
                    assert(text[i] == init[i] && text[i + 1] == init[i + 1]);
                } else if i + 1 == init.len() {
                    assert(text[i] == init.last());
                } else {
                    assert(text[i + 1] == last[i - init.len()]);
                }
            }
            assert(text[0] == init[0]);
            assert(text.last() == last.last());
        } else {
            assert(text == last);
            assert forall|i: int| 0 <= i < text.len() implies is_address_byte(#[trigger] text[i]) by {
                assert(hex_digit(last[i]) is Some);
            }
        }
    }
}

/// The text of one or more groups, where it runs from `from` to the end of
/// `text`, spells those groups.
pub proof fn lemma_groups_read_back(text: Seq<u8>, from: int, groups: Seq<u16>, quad: bool)
    requires
        0 <= from <= text.len(),
        groups.len() >= 1,
        text.subrange(from, text.len() as int) == groups_format(groups),
    ensures
        ipv6_groups(text, from, quad) == Some(groups),
    decreases groups.len(),
{
    let first = hex_digits(groups[0] as nat);
    let written = text.subrange(from, text.len() as int);
    let end = from + first.len();
    lemma_hex_digits(groups[0] as nat);
    lemma_hex_reads_back(groups[0]);
    if groups.len() >= 2 {
        lemma_groups_format_first(groups);
    }
    assert(end <= text.len());
    assert forall|i: int| from <= i < end implies text[i] != COLON by {
        assert(text[i] == written[i - from]);
        assert(written[i - from] == first[i - from]);
        assert(hex_digit(first[i - from]) is Some);
    }
    if groups.len() >= 2 {
        assert(text[end] == written[end - from]);
    }
    lemma_field_end_is(text, from, end, COLON);
    assert(text.subrange(from, end) =~= first);
    if groups.len() == 1 {
        assert(seq![groups[0]] =~= groups);
    } else {
        let tail = groups.skip(1);
        let rest = groups_format(tail);
        let after = text.subrange(end + 1, text.len() as int);
        assert(written.len() == first.len() + 1 + rest.len());
        assert forall|k: int| 0 <= k < rest.len() implies after[k] == rest[k] by {
            assert(text[end + 1 + k] == written[end + 1 + k - from]);
        }
        assert(after =~= rest);
        lemma_groups_read_back(text, end + 1, tail, quad);
        assert(seq![groups[0]] + tail =~= groups);
    }
}

/// The text of any number of groups spells them as a list.
pub proof fn lemma_group_list_reads_back(groups: Seq<u16>, quad: bool)
    ensures
        ipv6_group_list(groups_format(groups), quad) == Some(groups),
{
    let text = groups_format(groups);
    lemma_groups_format_shape(groups);
    if groups.len() == 0 {
        assert(groups =~= Seq::<u16>::empty());
    } else {
        assert(text.subrange(0, text.len() as int) =~= text);
        lemma_groups_read_back(text, 0, groups, quad);
    }
}

/// The groups of a run of zeroes are 0, and the run ends within the groups.
pub proof fn lemma_zero_run(groups: Seq<u16>, at: int)
    requires
        0 <= at <= groups.len(),
    ensures
        at + zero_run(groups, at) <= groups.len(),
        forall|i: int| at <= i < at + zero_run(groups, at) ==> groups[i] == 0,
    decreases groups.len() - at,
{
    if at < groups.len() && groups[at] == 0 {
        lemma_zero_run(groups, at + 1);
    }
}

/// The longest run of zeroes starts within the groups.
pub proof fn lemma_longest_run_start(groups: Seq<u16>, upto: nat)
    ensures
        0 <= longest_run_start(groups, upto),
        upto > 0 ==> longest_run_start(groups, upto) < upto,
    decreases upto,
{
    if upto > 0 {
        lemma_longest_run_start(groups, (upto - 1) as nat);
    }
}

/// The bytes of a dotted quad are digits and dots, at least seven of them.
pub proof fn lemma_ipv4_format_shape(octets: Seq<u8>)
    requires
        octets.len() == 4,
    ensures
        ipv4_format(octets).len() >= 7,
        address_bytes(ipv4_format(octets)),
        forall|i: int| 0 <= i < ipv4_format(octets).len() ==> ipv4_format(octets)[i] != COLON,
{
    let text = ipv4_format(octets);
    let d0 = decimal_digits(octets[0] as nat);
    let d1 = decimal_digits(octets[1] as nat);
    let d2 = decimal_digits(octets[2] as nat);
    let d3 = decimal_digits(octets[3] as nat);
    lemma_decimal_digits(octets[0] as nat);
    lemma_decimal_digits(octets[1] as nat);
    lemma_decimal_digits(octets[2] as nat);
    lemma_decimal_digits(octets[3] as nat);
    let s1 = d0.len() + 1;
    let s2 = s1 + d1.len() + 1;
    let s3 = s2 + d2.len() + 1;
    assert forall|i: int| 0 <= i < text.len() implies is_address_byte(#[trigger] text[i])
        && text[i] != COLON by {
        if i < d0.len() {
            assert(is_digit(d0[i]));
        } else if s1 <= i < s1 + d1.len() {
            assert(is_digit(d1[i - s1]));
        } else if s2 <= i < s2 + d2.len() {
            assert(is_digit(d2[i - s2]));
        } else if s3 <= i {
            assert(is_digit(d3[i - s3]));
        }
    }
}

/// The text of a mapped IPv4 address reads back.
proof fn lemma_mapped_reads_back(octets: Seq<u8>)
    requires
        octets.len() == 16,
        is_v4_mapped(octets),
    ensures
        ipv6_text(ipv6_format(octets)) == Some(octet_groups(octets)),
        ipv4_text(ipv6_format(octets)) is None,
        address_bytes(ipv6_format(octets)),
{
    let text = ipv6_format(octets);
    let groups = octet_groups(octets);
    let quad = octets.subrange(12, 16);
    let quad_text = ipv4_format(quad);
    let pre = seq![COLON, COLON, 102u8, 102u8, 102u8, 102u8, COLON];
    lemma_ipv4_format_shape(quad);
    lemma_ipv4_reads_back(quad);
    assert(text == pre + quad_text);
    assert(pre.len() == 7);
    assert forall|i: int| 0 <= i < text.len() implies is_address_byte(#[trigger] text[i]) by {
        if i >= 7 {
            assert(text[i] == quad_text[i - 7]);
        } else {
            assert(text[i] == pre[i]);
        }
    }
    assert(text[0] == COLON && text[1] == COLON);
    lemma_double_colon_is(text, 0, 0);
    lemma_colon_is_no_quad(text, 0, 4, 0);
    let head_text = text.subrange(0, 0);
    let tail_text = text.subrange(2, text.len() as int);
    assert(head_text.len() == 0);
    assert(tail_text.len() == 5 + quad_text.len());
    assert forall|i: int| 0 <= i < 4 implies tail_text[i] != COLON by {
        assert(tail_text[i] == pre[i + 2]);
    }
    assert(tail_text[4] == pre[6]);
    lemma_field_end_is(tail_text, 0, 4, COLON);
    let ffff = hex_digits(0xffff);
    assert(ffff =~= seq![102u8, 102u8, 102u8, 102u8]) by {
        reveal_with_fuel(hex_digits, 4);
    }
    assert(tail_text.subrange(0, 4) =~= ffff);
    lemma_hex_reads_back(0xffff);
    assert forall|i: int| 5 <= i < tail_text.len() implies tail_text[i] != COLON by {
        assert(tail_text[i] == quad_text[i - 5]);
    }
    lemma_field_end_is(tail_text, 5, tail_text.len() as int, COLON);
    assert(tail_text.subrange(5, tail_text.len() as int) =~= quad_text);
    assert(group_text(quad_text) is None);
    assert(ipv6_groups(tail_text, 5, true) == Some(quad_groups(quad)));
    let tail = seq![0xffffu16] + quad_groups(quad);
    assert(ipv6_groups(tail_text, 0, true) == Some(tail));
    assert(ipv6_group_list(head_text, false) == Some(Seq::<u16>::empty()));
    assert(tail.len() == 3);
    let spelled = Seq::<u16>::empty() + Seq::new(5, |i: int| 0u16) + tail;
    assert(spelled =~= groups) by {
        assert forall|i: int| 0 <= i < 8 implies spelled[i] == groups[i] by {
            if i < 5 {
                assert(octets[2 * i] == 0 && octets[2 * i + 1] == 0);
            } else if i == 5 {
            } else if i == 6 {
                assert(quad[0] == octets[12] && quad[1] == octets[13]);
            } else {
                assert(quad[2] == octets[14] && quad[3] == octets[15]);
            }
        }
    }
}

/// The text with `::` for a run of zero groups reads back.
proof fn lemma_compressed_reads_back(octets: Seq<u8>)
    requires
        octets.len() == 16,
        !is_v4_mapped(octets),
        zero_run(octet_groups(octets), longest_run_start(octet_groups(octets), 8)) > 1,
    ensures
        ipv6_text(ipv6_format(octets)) == Some(octet_groups(octets)),
        ipv4_text(ipv6_format(octets)) is None,
        address_bytes(ipv6_format(octets)),
{
    let text = ipv6_format(octets);
    let groups = octet_groups(octets);
    let start = longest_run_start(groups, 8);
    let run = zero_run(groups, start);
    lemma_longest_run_start(groups, 8);
    lemma_zero_run(groups, start);
    let head = groups.subrange(0, start);
    let tail = groups.subrange(start + run, 8);
    let head_text = groups_format(head);
    let tail_text = groups_format(tail);
    let at = head_text.len() as int;
    lemma_groups_format_shape(head);
    lemma_groups_format_shape(tail);
    lemma_group_list_reads_back(head, false);
    lemma_group_list_reads_back(tail, true);
    assert(text == head_text + seq![COLON, COLON] + tail_text);
    assert(text[at] == COLON && text[at + 1] == COLON);
    assert forall|i: int| 0 <= i < text.len() implies is_address_byte(#[trigger] text[i]) by {
        if i < at {
            assert(text[i] == head_text[i]);
        } else if i >= at + 2 {
            assert(text[i] == tail_text[i - at - 2]);
        }
    }
    assert forall|i: int| 0 <= i < at implies !double_at(text, i) by {
        if i + 1 < at {
            assert(!double_at(head_text, i));
            assert(text[i] == head_text[i] && text[i + 1] == head_text[i + 1]);
        } else {
            assert(text[i] == head_text.last());
        }
    }
    lemma_double_colon_is(text, 0, at);
    lemma_colon_is_no_quad(text, 0, 4, at);
    assert(text.subrange(0, at) =~= head_text);
    assert(text.subrange(at + 2, text.len() as int) =~= tail_text);
    let spelled = head + Seq::new((8 - head.len() - tail.len()) as nat, |i: int| 0u16) + tail;
    assert(spelled =~= groups);
}

/// The text of eight groups in full reads back.
proof fn lemma_plain_reads_back(octets: Seq<u8>)
    requires
        octets.len() == 16,
        !is_v4_mapped(octets),
        zero_run(octet_groups(octets), longest_run_start(octet_groups(octets), 8)) <= 1,
    ensures
        ipv6_text(ipv6_format(octets)) == Some(octet_groups(octets)),
        ipv4_text(ipv6_format(octets)) is None,
        address_bytes(ipv6_format(octets)),
{
    let text = ipv6_format(octets);
    let groups = octet_groups(octets);
    lemma_groups_format_shape(groups);
    lemma_groups_format_first(groups);
    lemma_hex_digits(groups[0] as nat);
    lemma_no_double_colon(text, 0);
    assert(text.subrange(0, text.len() as int) =~= text);
    lemma_groups_read_back(text, 0, groups, true);
    let colon = hex_digits(groups[0] as nat).len() as int;
    assert(text[colon] == COLON);
    lemma_colon_is_no_quad(text, 0, 4, colon);
}

/// The text of an IPv6 address of sixteen bytes spells its eight groups, and
/// is no dotted quad.
pub proof fn lemma_ipv6_reads_back(octets: Seq<u8>)
    requires
        octets.len() == 16,
    ensures
        ipv6_text(ipv6_format(octets)) == Some(octet_groups(octets)),
        ipv4_text(ipv6_format(octets)) is None,
        address_bytes(ipv6_format(octets)),
{
    let groups = octet_groups(octets);
    if is_v4_mapped(octets) {
        lemma_mapped_reads_back(octets);
    } else if zero_run(groups, longest_run_start(groups, 8)) > 1 {
        lemma_compressed_reads_back(octets);
    } else {
        lemma_plain_reads_back(octets);
    }
}

/// The bytes of the groups that pairs of bytes make are those bytes again.
pub proof fn lemma_group_octets(octets: Seq<u8>)
    requires
        octets.len() % 2 == 0,
    ensures
        group_octets(octet_groups(octets)) == octets,
{
    assert(group_octets(octet_groups(octets)) =~= octets);
}

/// The text of an IPv4 address spells that address, among the addresses of
/// its family and among those of either family.
pub proof fn lemma_ipv4_address_reads_back(addr: Ipv4Address)
    ensures
        Ipv4Address::spelled(ipv4_format(addr.0@)) == Some(addr),
        IpAddress::spelled(ipv4_format(addr.0@)) == Some(IpAddress::V4(addr)),
{
    lemma_ipv4_reads_back(addr.0@);
    assert(ipv4_of(addr.0@).0 =~= addr.0);
}

/// An IPv6 address is the address of its sixteen bytes.
pub proof fn lemma_ipv6_of(addr: Ipv6Address)
    ensures
        ipv6_of(addr.0@) == addr,
{
    assert(ipv6_of(addr.0@).0 =~= addr.0);
}

/// The text of an IPv6 address spells that address, among the addresses of
/// its family and among those of either family.
pub proof fn lemma_ipv6_address_reads_back(addr: Ipv6Address)
    ensures
        Ipv6Address::spelled(ipv6_format(addr.0@)) == Some(addr),
        IpAddress::spelled(ipv6_format(addr.0@)) == Some(IpAddress::V6(addr)),
{
    let text = ipv6_format(addr.0@);
    lemma_ipv6_reads_back(addr.0@);
    lemma_group_octets(addr.0@);
    lemma_ipv6_of(addr);
    assert(Ipv6Address::spelled(text) == Some(ipv6_of(group_octets(octet_groups(addr.0@)))));
    assert(Ipv4Address::spelled(text) is None);
}

/// The last separator is where none follows it.
pub proof fn lemma_last_index_is(text: Seq<u8>, at: int, sep: u8)
    requires
        0 <= at < text.len(),
        text[at] == sep,
        forall|i: int| at < i < text.len() ==> text[i] != sep,
    ensures
        last_index(text, sep) == Some(at),
    decreases text.len(),
{
    if at < text.len() - 1 {
        let init = text.drop_last();
        assert(forall|i: int| 0 <= i < init.len() ==> init[i] == text[i]);
        lemma_last_index_is(init, at, sep);
    }
}

/// The text of a network, made of a text that spells its address and holds
/// no slash, spells the network of that address and length.
pub proof fn lemma_cidr_reads_back<C>(addr: C::Address, addr_text: Seq<u8>, len: u8) where
    C: Cidr,
    C::Address: ParseableAddress,

    requires
        C::Address::spelled(addr_text) == Some(addr),
        address_bytes(addr_text),
    ensures
        cidr_text::<C>(cidr_format(addr_text, len as nat)) == checked_network(
            C::address_model(addr),
            len,
        ),
{
    let digits = decimal_digits(len as nat);
    let text = cidr_format(addr_text, len as nat);
    let at = addr_text.len() as int;
    lemma_decimal_digits(len as nat);
    lemma_decimal_reads_back(len);
    assert(text[at] == SLASH);
    assert forall|i: int| at < i < text.len() implies text[i] != SLASH by {
        assert(text[i] == digits[i - at - 1]);
        assert(is_digit(digits[i - at - 1]));
    }
    lemma_last_index_is(text, at, SLASH);
    assert(text.subrange(0, at) =~= addr_text);
    assert(text.subrange(at + 1, text.len() as int) =~= digits);
    assert(is_digit(digits[0]));
    assert(length_text(digits) == Some(len));
}

} // verus!
