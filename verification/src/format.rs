//! The canonical textual forms of addresses and networks.

use vstd::prelude::*;
use crate::text::{COLON, DOT, SLASH};

verus! {

/// The decimal digits of `n`, without leading zeroes.
pub open spec fn decimal_digits(n: nat) -> Seq<u8>
    decreases n,
{
    if n < 10 {
        seq![(48 + n) as u8]
    } else {
        decimal_digits(n / 10).push((48 + n % 10) as u8)
    }
}

/// The lower-case hexadecimal digit worth `d`.
pub open spec fn hex_char(d: nat) -> u8 {
    if d < 10 {
        (48 + d) as u8
    } else {
        (87 + d) as u8
    }
}

/// The lower-case hexadecimal digits of `n`, without leading zeroes.
pub open spec fn hex_digits(n: nat) -> Seq<u8>
    decreases n,
{
    if n < 16 {
        seq![hex_char(n)]
    } else {
        hex_digits(n / 16).push(hex_char(n % 16))
    }
}

/// The dotted quad of four bytes.
pub open spec fn ipv4_format(octets: Seq<u8>) -> Seq<u8> {
    decimal_digits(octets[0] as nat) + seq![DOT] + decimal_digits(octets[1] as nat) + seq![DOT]
        + decimal_digits(octets[2] as nat) + seq![DOT] + decimal_digits(octets[3] as nat)
}

/// The groups that pairs of bytes make, each most significant byte first.
pub open spec fn octet_groups(octets: Seq<u8>) -> Seq<u16> {
    Seq::new(octets.len() / 2, |i: int| (octets[2 * i] * 256 + octets[2 * i + 1]) as u16)
}

/// The groups in hexadecimal digits, with a colon between neighbours.
pub open spec fn groups_format(groups: Seq<u16>) -> Seq<u8>
    decreases groups.len(),
{
    if groups.len() == 0 {
        Seq::empty()
    } else if groups.len() == 1 {
        hex_digits(groups[0] as nat)
    } else {
        groups_format(groups.drop_last()) + seq![COLON] + hex_digits(groups.last() as nat)
    }
}

/// The length of the run of zero groups that starts at `at`.
pub open spec fn zero_run(groups: Seq<u16>, at: int) -> nat
    decreases groups.len() - at,
{
    if at < 0 || at >= groups.len() || groups[at] != 0 {
        0
    } else {
        1 + zero_run(groups, at + 1)
    }
}

/// Where the longest run of zero groups starts, among the runs that start
/// before `upto`: the first of them where several are longest.
pub open spec fn longest_run_start(groups: Seq<u16>, upto: nat) -> int
    decreases upto,
{
    if upto == 0 {
        0
    } else {
        let before = longest_run_start(groups, (upto - 1) as nat);
        if zero_run(groups, upto - 1) > zero_run(groups, before) {
            upto - 1
        } else {
            before
        }
    }
}

/// Whether sixteen bytes hold an IPv4 address mapped into IPv6: ten bytes of
/// 0, two of 255, and the address.
pub open spec fn is_v4_mapped(octets: Seq<u8>) -> bool {
    &&& forall|i: int| 0 <= i < 10 ==> octets[i] == 0
    &&& octets[10] == 255
    &&& octets[11] == 255
}

/// The text of an IPv6 address of sixteen bytes. A mapped IPv4 address is
/// `::ffff:` and its dotted quad. Otherwise the eight groups are written in
/// hexadecimal, and `::` stands for the longest run of two or more zero
/// groups, the first of them where several are longest.
pub open spec fn ipv6_format(octets: Seq<u8>) -> Seq<u8> {
    let groups = octet_groups(octets);
    let start = longest_run_start(groups, 8);
    let run = zero_run(groups, start);
    if is_v4_mapped(octets) {
        seq![COLON, COLON, 102u8, 102u8, 102u8, 102u8, COLON] + ipv4_format(octets.subrange(12, 16))
    } else if run > 1 {
        groups_format(groups.subrange(0, start)) + seq![COLON, COLON] + groups_format(
            groups.subrange(start + run, 8),
        )
    } else {
        groups_format(groups)
    }
}

/// The text of a network: the address, a slash, and the network length in decimal.
pub open spec fn cidr_format(address: Seq<u8>, len: nat) -> Seq<u8> {
    address + seq![SLASH] + decimal_digits(len)
}

/// Appends the decimal digits of `n`.
pub fn push_decimal(out: &mut Vec<u8>, n: u8)
    ensures
        final(out)@ == old(out)@ + decimal_digits(n as nat),
        all_ascii(old(out)@) ==> all_ascii(final(out)@),
{
    if n >= 100 {
        out.push(48 + n / 100);
    }
    if n >= 10 {
        out.push(48 + (n / 10) % 10);
    }
    out.push(48 + n % 10);
    proof {
        reveal_with_fuel(decimal_digits, 3);
        assert(out@ =~= old(out)@ + decimal_digits(n as nat));
    }
}

/// Appends the lower-case hexadecimal digits of `n`.
pub fn push_hex(out: &mut Vec<u8>, n: u16)
    ensures
        final(out)@ == old(out)@ + hex_digits(n as nat),
        all_ascii(old(out)@) ==> all_ascii(final(out)@),
{
    if n >= 0x1000 {
        out.push(hex_byte((n / 0x1000) as u8));
    }
    if n >= 0x100 {
        out.push(hex_byte(((n / 0x100) % 16) as u8));
    }
    if n >= 0x10 {
        out.push(hex_byte(((n / 0x10) % 16) as u8));
    }
    out.push(hex_byte((n % 16) as u8));
    proof {
        reveal_with_fuel(hex_digits, 4);
        assert(out@ =~= old(out)@ + hex_digits(n as nat));
    }
}

/// The lower-case hexadecimal digit worth `d`.
pub fn hex_byte(d: u8) -> (byte: u8)
    requires
        d < 16,
    ensures
        byte == hex_char(d as nat),
{
    if d < 10 {
        48 + d
    } else {
        87 + d
    }
}

/// Appends the dotted quad of the four bytes of `octets` from `from` on.
pub fn push_ipv4(out: &mut Vec<u8>, octets: &[u8], from: usize)
    requires
        from + 4 <= octets@.len(),
    ensures
        final(out)@ == old(out)@ + ipv4_format(octets@.subrange(from as int, from + 4)),
        all_ascii(old(out)@) ==> all_ascii(final(out)@),
{
    push_decimal(out, octets[from]);
    out.push(DOT);
    push_decimal(out, octets[from + 1]);
    out.push(DOT);
    push_decimal(out, octets[from + 2]);
    out.push(DOT);
    push_decimal(out, octets[from + 3]);
    proof {
        let quad = octets@.subrange(from as int, from + 4);
        assert(out@ =~= old(out)@ + ipv4_format(quad));
    }
}

/// The group that the bytes of `octets` at `2 * at` and after it make.
pub fn group_at(octets: &[u8; 16], at: usize) -> (group: u16)
    requires
        at < 8,
    ensures
        group == octet_groups(octets@)[at as int],
{
    octets[2 * at] as u16 * 256 + octets[2 * at + 1] as u16
}

/// Appends the groups of `octets` from index `from` up to `to`, with colons between them.
pub fn push_groups(out: &mut Vec<u8>, octets: &[u8; 16], from: usize, to: usize)
    requires
        from <= to <= 8,
    ensures
        final(out)@ == old(out)@ + groups_format(
            octet_groups(octets@).subrange(from as int, to as int),
        ),
        all_ascii(old(out)@) ==> all_ascii(final(out)@),
{
    let ghost groups = octet_groups(octets@);
    let mut k: usize = from;
    while k < to
        invariant
            from <= k <= to <= 8,
            groups == octet_groups(octets@),
            out@ == old(out)@ + groups_format(groups.subrange(from as int, k as int)),
            all_ascii(old(out)@) ==> all_ascii(out@),
        decreases to - k,
    {
        if k > from {
            out.push(COLON);
        }
        push_hex(out, group_at(octets, k));
        proof {
            let done = groups.subrange(from as int, k as int);
            let more = groups.subrange(from as int, k + 1);
            assert(more.drop_last() =~= done);
            assert(more.last() == groups[k as int]);
            assert(out@ =~= old(out)@ + groups_format(more));
        }
        k += 1;
    }
}

/// The length of the run of zero groups that starts at `at`.
pub fn zero_run_at(octets: &[u8; 16], at: usize) -> (run: usize)
    requires
        at <= 8,
    ensures
        run == zero_run(octet_groups(octets@), at as int),
        at + run <= 8,
{
    let ghost groups = octet_groups(octets@);
    let mut k: usize = at;
    while k < 8 && group_at(octets, k) == 0
        invariant
            at <= k <= 8,
            groups == octet_groups(octets@),
            zero_run(groups, at as int) == (k - at) + zero_run(groups, k as int),
        decreases 8 - k,
    {
        k += 1;
    }
    k - at
}

/// Where the longest run of zero groups starts, and how long it is.
pub fn longest_zero_run(octets: &[u8; 16]) -> (found: (usize, usize))
    ensures
        found.0 == longest_run_start(octet_groups(octets@), 8),
        found.1 == zero_run(octet_groups(octets@), found.0 as int),
        found.0 + found.1 <= 8,
{
    let ghost groups = octet_groups(octets@);
    let mut start: usize = 0;
    let mut run: usize = zero_run_at(octets, 0);
    let mut k: usize = 1;
    assert(longest_run_start(groups, 1) == 0) by {
        reveal_with_fuel(longest_run_start, 2);
    }
    while k < 8
        invariant
            1 <= k <= 8,
            groups == octet_groups(octets@),
            start == longest_run_start(groups, k as nat),
            run == zero_run(groups, start as int),
            start < k,
            start + run <= 8,
        decreases 8 - k,
    {
        let here = zero_run_at(octets, k);
        if here > run {
            start = k;
            run = here;
        }
        k += 1;
    }
    (start, run)
}

/// Whether `octets` hold an IPv4 address mapped into IPv6.
pub fn is_ipv4_mapped(octets: &[u8; 16]) -> (mapped: bool)
    ensures
        mapped == is_v4_mapped(octets@),
{
    let mut k: usize = 0;
    while k < 10
        invariant
            k <= 10,
            forall|i: int| 0 <= i < k ==> octets@[i] == 0,
        decreases 10 - k,
    {
        if octets[k] != 0 {
            return false;
        }
        k += 1;
    }
    octets[10] == 255 && octets[11] == 255
}

/// Appends the text of the IPv6 address `octets`.
pub fn push_ipv6(out: &mut Vec<u8>, octets: &[u8; 16])
    ensures
        final(out)@ == old(out)@ + ipv6_format(octets@),
        all_ascii(old(out)@) ==> all_ascii(final(out)@),
{
    if is_ipv4_mapped(octets) {
        out.push(COLON);
        out.push(COLON);
        out.push(102);
        out.push(102);
        out.push(102);
        out.push(102);
        out.push(COLON);
        let ghost prefixed = out@;
        push_ipv4(out, octets, 12);
        proof {
            assert(prefixed =~= old(out)@ + seq![COLON, COLON, 102u8, 102u8, 102u8, 102u8, COLON]);
            assert(out@ =~= old(out)@ + ipv6_format(octets@));
        }
    } else {
        let (start, run) = longest_zero_run(octets);
        if run > 1 {
            push_groups(out, octets, 0, start);
            out.push(COLON);
            out.push(COLON);
            push_groups(out, octets, start + run, 8);
            proof {
                assert(out@ =~= old(out)@ + ipv6_format(octets@));
            }
        } else {
            push_groups(out, octets, 0, 8);
            proof {
                let groups = octet_groups(octets@);
                assert(groups.subrange(0, 8) =~= groups);
            }
        }
    }
}

/// Whether every byte of `bytes` is an ASCII character.
pub open spec fn all_ascii(bytes: Seq<u8>) -> bool {
    forall|i: int| 0 <= i < bytes.len() ==> #[trigger] bytes[i] < 128
}

/// The characters that ASCII bytes stand for.
pub open spec fn ascii_chars(bytes: Seq<u8>) -> Seq<char> {
    Seq::new(bytes.len(), |i: int| bytes[i] as char)
}

/// The UTF-8 bytes of the characters that ASCII bytes stand for are those bytes.
pub proof fn lemma_ascii_chars_bytes(bytes: Seq<u8>)
    requires
        all_ascii(bytes),
    ensures
        vstd::utf8::encode_utf8(ascii_chars(bytes)) == bytes,
{
    let chars = ascii_chars(bytes);
    assert forall|i: int| 0 <= i < chars.len() implies '\0' <= #[trigger] chars[i] <= '\u{7f}' by {
        assert(bytes[i] < 128);
    }
    vstd::utf8::is_ascii_chars_encode_utf8(chars);
    assert(vstd::utf8::encode_utf8(chars) =~= bytes);
}

/// `String::from_utf8` on bytes that are all ASCII, which are valid UTF-8
/// with one character to the byte: the string of those characters.
#[verifier::external_body]
pub(crate) fn ascii_string(bytes: Vec<u8>) -> (text: String)
    requires
        all_ascii(bytes@),
    ensures
        text@ == ascii_chars(bytes@),
{
    match String::from_utf8(bytes) {
        Ok(text) => text,
        Err(_) => String::new(),
    }
}

/// The dotted quad of an IPv4 address.
pub fn ipv4_string(octets: &[u8; 4]) -> (text: String)
    ensures
        text@ == ascii_chars(ipv4_format(octets@)),
{
    let mut out: Vec<u8> = Vec::new();
    push_ipv4(&mut out, octets, 0);
    assert(octets@.subrange(0, 4) =~= octets@);
    assert(out@ =~= ipv4_format(octets@));
    ascii_string(out)
}

/// The text of an IPv6 address.
pub fn ipv6_string(octets: &[u8; 16]) -> (text: String)
    ensures
        text@ == ascii_chars(ipv6_format(octets@)),
{
    let mut out: Vec<u8> = Vec::new();
    push_ipv6(&mut out, octets);
    assert(out@ =~= ipv6_format(octets@));
    ascii_string(out)
}

/// The text of an IPv4 network.
pub fn ipv4_cidr_string(octets: &[u8; 4], len: u8) -> (text: String)
    ensures
        text@ == ascii_chars(cidr_format(ipv4_format(octets@), len as nat)),
{
    let mut out: Vec<u8> = Vec::new();
    push_ipv4(&mut out, octets, 0);
    assert(octets@.subrange(0, 4) =~= octets@);
    out.push(SLASH);
    push_decimal(&mut out, len);
    assert(out@ =~= cidr_format(ipv4_format(octets@), len as nat));
    ascii_string(out)
}

/// The text of an IPv6 network.
pub fn ipv6_cidr_string(octets: &[u8; 16], len: u8) -> (text: String)
    ensures
        text@ == ascii_chars(cidr_format(ipv6_format(octets@), len as nat)),
{
    let mut out: Vec<u8> = Vec::new();
    push_ipv6(&mut out, octets);
    out.push(SLASH);
    push_decimal(&mut out, len);
    assert(out@ =~= cidr_format(ipv6_format(octets@), len as nat));
    ascii_string(out)
}

} // verus!
