//! The textual forms of addresses: dotted quads for IPv4, and for IPv6 groups
//! of hexadecimal digits with at most one `::` and an optional dotted tail.

use vstd::prelude::*;
use vstd::string::StringSliceAdditionalSpecFns;
use crate::address::{IpAddress, Ipv4Address, Ipv6Address};
use crate::errors::NetworkParseError;
use crate::text::{
    all_hex, decimal_text, field, field_end, find_byte, hex_digit, hex_value, lemma_field_end,
    parse_decimal, COLON, DOT,
};

verus! {

/// `rest` with `done` put in front of it, where there is a `rest`.
pub open spec fn prepend<T>(done: Seq<T>, rest: Option<Seq<T>>) -> Option<Seq<T>> {
    match rest {
        Some(rest) => Some(done + rest),
        None => None,
    }
}

/// The byte that one field of a dotted quad spells: one to three decimal
/// digits with no leading zero, worth at most 255.
pub open spec fn octet_text(field: Seq<u8>) -> Option<u8> {
    if field.len() <= 3 && (field.len() == 1 || field[0] != 48) {
        decimal_text(field)
    } else {
        None
    }
}

/// The bytes that `count` fields spell which are separated by dots and run
/// from `from` to the end of `text`.
pub open spec fn ipv4_octets(text: Seq<u8>, from: int, count: nat) -> Option<Seq<u8>>
    decreases count,
{
    let end = field_end(text, from, DOT);
    if count == 0 {
        None
    } else {
        match octet_text(text.subrange(from, end)) {
            None => None,
            Some(octet) => if count == 1 {
                if end == text.len() {
                    Some(seq![octet])
                } else {
                    None
                }
            } else if end == text.len() {
                None
            } else {
                prepend(seq![octet], ipv4_octets(text, end + 1, (count - 1) as nat))
            },
        }
    }
}

/// The four bytes of the IPv4 address that `text` spells as a dotted quad.
pub open spec fn ipv4_text(text: Seq<u8>) -> Option<Seq<u8>> {
    ipv4_octets(text, 0, 4)
}

/// The 16-bit group that a field of an IPv6 address spells: one to four hexadecimal digits.
pub open spec fn group_text(field: Seq<u8>) -> Option<u16> {
    if 1 <= field.len() <= 4 && all_hex(field) {
        Some(hex_value(field) as u16)
    } else {
        None
    }
}

/// The two groups that hold the four bytes of an IPv4 address.
pub open spec fn quad_groups(octets: Seq<u8>) -> Seq<u16> {
    seq![(octets[0] * 256 + octets[1]) as u16, (octets[2] * 256 + octets[3]) as u16]
}

/// The groups that the fields spell which are separated by colons and run
/// from `from` to the end of `text`. Where `quad` holds, the last field may
/// be a dotted quad, which gives two groups.
pub open spec fn ipv6_groups(text: Seq<u8>, from: int, quad: bool) -> Option<Seq<u16>>
    decreases text.len() - from,
{
    let end = field_end(text, from, COLON);
    let field = text.subrange(from, end);
    if from < 0 || from > text.len() {
        None
    } else if end >= text.len() {
        match group_text(field) {
            Some(group) => Some(seq![group]),
            None => if quad {
                match ipv4_text(field) {
                    Some(octets) => Some(quad_groups(octets)),
                    None => None,
                }
            } else {
                None
            },
        }
    } else {
        proof {
            lemma_field_end(text, from, COLON);
        }
        match group_text(field) {
            Some(group) => prepend(seq![group], ipv6_groups(text, end + 1, quad)),
            None => None,
        }
    }
}

/// The groups that `text` lists; an empty text lists none.
pub open spec fn ipv6_group_list(text: Seq<u8>, quad: bool) -> Option<Seq<u16>> {
    if text.len() == 0 {
        Some(Seq::empty())
    } else {
        ipv6_groups(text, 0, quad)
    }
}

/// The index of the first `::` in `text` at or after `from`, if there is one.
pub open spec fn double_colon(text: Seq<u8>, from: int) -> Option<int>
    decreases text.len() - from,
{
    if from + 1 >= text.len() {
        None
    } else if text[from] == COLON && text[from + 1] == COLON {
        Some(from)
    } else {
        double_colon(text, from + 1)
    }
}

/// The bytes of a sequence of groups, each most significant byte first.
pub open spec fn group_octets(groups: Seq<u16>) -> Seq<u8> {
    Seq::new(
        2 * groups.len(),
        |i: int|
            if i % 2 == 0 {
                (groups[i / 2] / 256) as u8
            } else {
                (groups[i / 2] % 256) as u8
            },
    )
}

/// The eight groups of the IPv6 address that `text` spells. Without `::`
/// the text lists all eight. With `::`, the groups before it and those after
/// it are at most seven, and the groups between them are 0. A dotted quad may
/// stand for the last two groups.
pub open spec fn ipv6_text(text: Seq<u8>) -> Option<Seq<u16>> {
    match double_colon(text, 0) {
        None => match ipv6_groups(text, 0, true) {
            Some(groups) => if groups.len() == 8 {
                Some(groups)
            } else {
                None
            },
            None => None,
        },
        Some(at) => match (
            ipv6_group_list(text.subrange(0, at), false),
            ipv6_group_list(text.subrange(at + 2, text.len() as int), true),
        ) {
            (Some(head), Some(tail)) => if head.len() + tail.len() <= 7 {
                Some(head + Seq::new((8 - head.len() - tail.len()) as nat, |i: int| 0u16) + tail)
            } else {
                None
            },
            _ => None,
        },
    }
}

/// The byte that one field of a dotted quad spells.
pub fn parse_octet(field: &[u8]) -> (octet: Option<u8>)
    ensures
        octet == octet_text(field@),
{
    if field.len() > 3 || (field.len() > 1 && field[0] == 48) {
        None
    } else {
        parse_decimal(field)
    }
}

/// The four bytes of the IPv4 address that `text` spells as a dotted quad.
pub fn parse_ipv4(text: &[u8]) -> (octets: Option<[u8; 4]>)
    ensures
        match octets {
            Some(octets) => ipv4_text(text@) == Some(octets@),
            None => ipv4_text(text@) is None,
        },
{
    let mut octets: [u8; 4] = [0, 0, 0, 0];
    let mut from: usize = 0;
    let mut k: usize = 0;
    while k < 4
        invariant
            k < 4,
            from <= text@.len(),
            ipv4_text(text@) == prepend(
                octets@.take(k as int),
                ipv4_octets(text@, from as int, (4 - k) as nat),
            ),
        decreases 4 - k,
    {
        let ghost done = octets@.take(k as int);
        let end = find_byte(text, from, DOT);
        match parse_octet(field(text, from, end)) {
            None => {
                return None;
            },
            Some(octet) => {
                octets[k] = octet;
                assert(octets@.take(k + 1) =~= done + seq![octet]);
            },
        }
        if k == 3 {
            if end == text.len() {
                assert(octets@.take(4) =~= octets@);
                return Some(octets);
            } else {
                return None;
            }
        } else if end == text.len() {
            return None;
        }
        proof {
            let rest = ipv4_octets(text@, end + 1, (3 - k) as nat);
            if rest is Some {
                assert(done + (seq![octets@[k as int]] + rest.unwrap()) =~= octets@.take(k + 1)
                    + rest.unwrap());
            }
        }
        from = end + 1;
        k += 1;
    }
    None
}

/// The value of a hexadecimal digit of either case.
pub fn parse_hex_digit(byte: u8) -> (value: Option<u8>)
    ensures
        match value {
            Some(v) => hex_digit(byte) == Some(v as nat) && v < 16,
            None => hex_digit(byte) is None,
        },
{
    if 48 <= byte && byte <= 57 {
        Some(byte - 48)
    } else if 97 <= byte && byte <= 102 {
        Some(byte - 87)
    } else if 65 <= byte && byte <= 70 {
        Some(byte - 55)
    } else {
        None
    }
}

/// The 16-bit group that a field of an IPv6 address spells.
pub fn parse_group(field: &[u8]) -> (group: Option<u16>)
    ensures
        group == group_text(field@),
{
    if field.len() == 0 || field.len() > 4 {
        return None;
    }
    let mut value: u16 = 0;
    let mut i: usize = 0;
    while i < field.len()
        invariant
            i <= field@.len() <= 4,
            all_hex(field@.take(i as int)),
            value == hex_value(field@.take(i as int)),
            i == 0 ==> value == 0,
            i == 1 ==> value < 0x10,
            i == 2 ==> value < 0x100,
            i == 3 ==> value < 0x1000,
        decreases field@.len() - i,
    {
        match parse_hex_digit(field[i]) {
            None => {
                assert(hex_digit(field@[i as int]) is None);
                return None;
            },
            Some(digit) => {
                value = value * 16 + digit as u16;
            },
        }
        i += 1;
        proof {
            let taken = field@.take(i as int);
            assert(taken.drop_last() =~= field@.take(i - 1));
            assert forall|j: int| 0 <= j < taken.len() implies hex_digit(#[trigger] taken[j])
                is Some by {
                if j < i - 1 {
                    assert(field@.take(i - 1)[j] == taken[j]);
                }
            }
        }
    }
    assert(field@.take(i as int) =~= field@);
    Some(value)
}

/// The groups that `text` lists between colons; an empty text lists none.
/// Where `quad` holds, the last field may be a dotted quad.
pub fn parse_groups(text: &[u8], quad: bool) -> (groups: Option<Vec<u16>>)
    ensures
        match groups {
            Some(groups) => ipv6_group_list(text@, quad) == Some(groups@),
            None => ipv6_group_list(text@, quad) is None,
        },
{
    let mut groups: Vec<u16> = Vec::new();
    if text.len() == 0 {
        return Some(groups);
    }
    let mut from: usize = 0;
    loop
        invariant
            from <= text@.len(),
            text@.len() > 0,
            ipv6_group_list(text@, quad) == prepend(groups@, ipv6_groups(text@, from as int, quad)),
        decreases text@.len() - from,
    {
        let ghost done = groups@;
        let end = find_byte(text, from, COLON);
        let part = field(text, from, end);
        if end == text.len() {
            match parse_group(part) {
                Some(group) => {
                    groups.push(group);
                    assert(groups@ =~= done + seq![group]);
                    return Some(groups);
                },
                None => {
                    if !quad {
                        return None;
                    }
                    match parse_ipv4(part) {
                        Some(octets) => {
                            groups.push(octets[0] as u16 * 256 + octets[1] as u16);
                            groups.push(octets[2] as u16 * 256 + octets[3] as u16);
                            assert(groups@ =~= done + quad_groups(octets@));
                            return Some(groups);
                        },
                        None => {
                            return None;
                        },
                    }
                },
            }
        }
        match parse_group(part) {
            Some(group) => {
                groups.push(group);
                proof {
                    let rest = ipv6_groups(text@, end + 1, quad);
                    if rest is Some {
                        assert(done + (seq![group] + rest.unwrap()) =~= groups@ + rest.unwrap());
                    }
                }
            },
            None => {
                return None;
            },
        }
        from = end + 1;
    }
}

/// The index of the first `::` in `text`, if there is one.
pub fn find_double_colon(text: &[u8]) -> (found: Option<usize>)
    ensures
        match found {
            Some(at) => double_colon(text@, 0) == Some(at as int) && at + 2 <= text@.len(),
            None => double_colon(text@, 0) is None,
        },
{
    if text.len() < 2 {
        return None;
    }
    let last: usize = text.len() - 1;
    let mut i: usize = 0;
    while i < last
        invariant
            i <= last,
            last + 1 == text@.len(),
            double_colon(text@, 0) == double_colon(text@, i as int),
        decreases last - i,
    {
        if text[i] == COLON && text[i + 1] == COLON {
            return Some(i);
        }
        i += 1;
    }
    None
}

/// The bytes of eight groups, each most significant byte first.
pub fn groups_to_octets(groups: &[u16; 8]) -> (octets: [u8; 16])
    ensures
        octets@ == group_octets(groups@),
{
    let mut octets: [u8; 16] = [0, 0, 0, 0, 0, 0, 0, 0, 0, 0, 0, 0, 0, 0, 0, 0];
    let mut k: usize = 0;
    while k < 8
        invariant
            k <= 8,
            forall|i: int| 0 <= i < 2 * k ==> octets@[i] == group_octets(groups@)[i],
        decreases 8 - k,
    {
        octets[2 * k] = (groups[k] / 256) as u8;
        octets[2 * k + 1] = (groups[k] % 256) as u8;
        k += 1;
    }
    assert(octets@ =~= group_octets(groups@));
    octets
}

/// The eight groups of the IPv6 address that `text` spells.
pub fn parse_ipv6(text: &[u8]) -> (groups: Option<[u16; 8]>)
    ensures
        match groups {
            Some(groups) => ipv6_text(text@) == Some(groups@),
            None => ipv6_text(text@) is None,
        },
{
    let mut groups: [u16; 8] = [0, 0, 0, 0, 0, 0, 0, 0];
    let found = find_double_colon(text);
    match found {
        None => match parse_groups(text, true) {
            Some(listed) => {
                if listed.len() != 8 {
                    return None;
                }
                let mut k: usize = 0;
                while k < 8
                    invariant
                        k <= 8,
                        listed@.len() == 8,
                        forall|i: int| 0 <= i < k ==> groups@[i] == listed@[i],
                    decreases 8 - k,
                {
                    groups[k] = listed[k];
                    k += 1;
                }
                assert(groups@ =~= listed@);
                Some(groups)
            },
            None => None,
        },
        Some(at) => {
            let len = text.len();
            let head = parse_groups(field(text, 0, at), false);
            let tail = parse_groups(field(text, at + 2, len), true);
            match (head, tail) {
                (Some(head), Some(tail)) => {
                    if head.len() > 7 || tail.len() > 7 - head.len() {
                        return None;
                    }
                    let gap: usize = 8 - head.len() - tail.len();
                    let ghost spelled = head@ + Seq::new(gap as nat, |i: int| 0u16) + tail@;
                    let mut k: usize = 0;
                    while k < head.len()
                        invariant
                            k <= head@.len(),
                            head@.len() + tail@.len() + gap == 8,
                            forall|i: int| 0 <= i < k ==> groups@[i] == head@[i],
                            forall|i: int| head@.len() <= i < 8 ==> groups@[i] == 0,
                        decreases head@.len() - k,
                    {
                        groups[k] = head[k];
                        k += 1;
                    }
                    let mut k: usize = 0;
                    while k < tail.len()
                        invariant
                            k <= tail@.len(),
                            head@.len() + tail@.len() + gap == 8,
                            forall|i: int| 0 <= i < head@.len() ==> groups@[i] == head@[i],
                            forall|i: int| head@.len() <= i < head@.len() + gap ==> groups@[i] == 0,
                            forall|i: int| 0 <= i < k ==> groups@[head@.len() + gap + i] == tail@[i],
                        decreases tail@.len() - k,
                    {
                        groups[head.len() + gap + k] = tail[k];
                        k += 1;
                    }
                    assert(groups@ =~= spelled);
                    Some(groups)
                },
                _ => None,
            }
        },
    }
}

/// Addresses that have a textual form.
pub trait ParseableAddress: Sized {
    /// The address that `text` spells, if it spells one.
    spec fn spelled(text: Seq<u8>) -> Option<Self>;

    /// The address that the bytes of `text` spell.
    fn address_from_bytes(text: &[u8]) -> (parsed: Result<Self, NetworkParseError>)
        ensures
            parsed == match Self::spelled(text@) {
                Some(addr) => Ok::<Self, NetworkParseError>(addr),
                None => Err::<Self, NetworkParseError>(NetworkParseError::AddrParseError),
            },
    ;

    /// The address that `s` spells.
    fn address_from_str(s: &str) -> (parsed: Result<Self, NetworkParseError>)
        ensures
            parsed == match Self::spelled(s.spec_bytes()) {
                Some(addr) => Ok::<Self, NetworkParseError>(addr),
                None => Err::<Self, NetworkParseError>(NetworkParseError::AddrParseError),
            },
    {
        Self::address_from_bytes(s.as_bytes())
    }
}

/// The IPv4 address of four given bytes.
pub open spec fn ipv4_of(octets: Seq<u8>) -> Ipv4Address {
    Ipv4Address([octets[0], octets[1], octets[2], octets[3]])
}

/// The IPv6 address of sixteen given bytes.
pub open spec fn ipv6_of(octets: Seq<u8>) -> Ipv6Address {
    Ipv6Address(
        [
            octets[0],
            octets[1],
            octets[2],
            octets[3],
            octets[4],
            octets[5],
            octets[6],
            octets[7],
            octets[8],
            octets[9],
            octets[10],
            octets[11],
            octets[12],
            octets[13],
            octets[14],
            octets[15],
        ],
    )
}

impl ParseableAddress for Ipv4Address {
    open spec fn spelled(text: Seq<u8>) -> Option<Ipv4Address> {
        match ipv4_text(text) {
            Some(octets) => Some(ipv4_of(octets)),
            None => None,
        }
    }

    fn address_from_bytes(text: &[u8]) -> (parsed: Result<Self, NetworkParseError>) {
        match parse_ipv4(text) {
            Some(octets) => {
                assert(octets =~= ipv4_of(octets@).0);
                Ok(Ipv4Address(octets))
            },
            None => Err(NetworkParseError::AddrParseError),
        }
    }
}

impl ParseableAddress for Ipv6Address {
    open spec fn spelled(text: Seq<u8>) -> Option<Ipv6Address> {
        match ipv6_text(text) {
            Some(groups) => Some(ipv6_of(group_octets(groups))),
            None => None,
        }
    }

    fn address_from_bytes(text: &[u8]) -> (parsed: Result<Self, NetworkParseError>) {
        match parse_ipv6(text) {
            Some(groups) => {
                let octets = groups_to_octets(&groups);
                assert(octets =~= ipv6_of(octets@).0);
                Ok(Ipv6Address(octets))
            },
            None => Err(NetworkParseError::AddrParseError),
        }
    }
}

impl ParseableAddress for IpAddress {
    open spec fn spelled(text: Seq<u8>) -> Option<IpAddress> {
        match Ipv4Address::spelled(text) {
            Some(addr) => Some(IpAddress::V4(addr)),
            None => match Ipv6Address::spelled(text) {
                Some(addr) => Some(IpAddress::V6(addr)),
                None => None,
            },
        }
    }

    fn address_from_bytes(text: &[u8]) -> (parsed: Result<Self, NetworkParseError>) {
        match Ipv4Address::address_from_bytes(text) {
            Ok(addr) => Ok(IpAddress::V4(addr)),
            Err(_) => match Ipv6Address::address_from_bytes(text) {
                Ok(addr) => Ok(IpAddress::V6(addr)),
                Err(e) => Err(e),
            },
        }
    }
}

} // verus!
