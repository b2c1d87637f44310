use cidr::address::{IpAddress, Ipv4Address, Ipv6Address};
use cidr::cidr::combined::IpCidr;
use cidr::cidr::direct::{Ipv4Cidr, Ipv6Cidr};
use cidr::cidr::from_str::{cidr_from_bytes, cidr_from_str, parse_length};
use cidr::errors::{NetworkLengthTooLongError, NetworkParseError};
use cidr::family::Family;
use cidr::inet::{IpInet, Ipv4Inet, Ipv6Inet};
use cidr::local_addr_parser::{
    find_double_colon, groups_to_octets, parse_group, parse_groups, parse_hex_digit, parse_ipv4,
    parse_ipv6, parse_octet, ParseableAddress,
};
use cidr::text::{field, find_byte, parse_decimal, rfind_byte};
use cidr::traits::Cidr;

fn v4(a: u8, b: u8, c: u8, d: u8) -> Ipv4Address {
    Ipv4Address([a, b, c, d])
}

fn v6(groups: [u16; 8]) -> Ipv6Address {
    let mut octets = [0u8; 16];
    for (i, g) in groups.iter().enumerate() {
        octets[2 * i] = (g >> 8) as u8;
        octets[2 * i + 1] = (g & 0xff) as u8;
    }
    Ipv6Address(octets)
}

fn too_long(length: usize, family: Family) -> NetworkParseError {
    NetworkParseError::NetworkLengthTooLongError(NetworkLengthTooLongError { length, family })
}

#[test]
fn parse_ipv4_network() {
    let net: Ipv4Cidr = cidr_from_str("192.168.1.0/24").unwrap();
    assert_eq!(v4(192, 168, 1, 0), net.first_address());
    assert_eq!(v4(192, 168, 1, 255), net.last_address());
    assert!(net.contains(&v4(192, 168, 1, 42)));
    assert!(!net.contains(&v4(192, 168, 2, 1)));
    assert_eq!(24, net.network_length());
    assert_eq!(Family::Ipv4, net.family());
    assert_eq!(v4(255, 255, 255, 0), net.mask());
}

#[test]
fn parse_combined_network() {
    let net: IpCidr = cidr_from_str("192.168.1.0/24").unwrap();
    assert!(net.is_ipv4());
    assert!(!net.is_ipv6());
    assert_eq!(IpAddress::V4(v4(192, 168, 1, 0)), net.first_address());
    assert_eq!(IpAddress::V4(v4(192, 168, 1, 255)), net.last_address());
    assert!(net.contains(&IpAddress::V4(v4(192, 168, 1, 42))));
    assert!(!net.contains(&IpAddress::V4(v4(192, 168, 2, 1))));
    assert_eq!(IpAddress::V4(v4(255, 255, 255, 0)), net.mask());
}

#[test]
fn parse_rejects_length_beyond_family_width() {
    assert_eq!(Err(too_long(33, Family::Ipv4)), cidr_from_str::<Ipv4Cidr>("10.0.0.5/33"));
    assert_eq!(Err(too_long(33, Family::Ipv4)), cidr_from_str::<IpCidr>("10.0.0.5/33"));
    assert_eq!(Err(too_long(129, Family::Ipv6)), cidr_from_str::<Ipv6Cidr>("::/129"));
    assert_eq!(Err(too_long(255, Family::Ipv6)), cidr_from_str::<IpCidr>("::1/255"));
    assert!(cidr_from_str::<Ipv4Cidr>("10.0.0.5/32").is_ok());
    assert!(cidr_from_str::<Ipv6Cidr>("::1/128").is_ok());
}

#[test]
fn parse_rejects_set_host_bits() {
    assert_eq!(Err(NetworkParseError::InvalidHostPart), cidr_from_str::<Ipv4Cidr>("10.0.0.5/24"));
    assert_eq!(Err(NetworkParseError::InvalidHostPart), cidr_from_str::<IpCidr>("10.0.0.5/31"));
    assert_eq!(Err(NetworkParseError::InvalidHostPart), cidr_from_str::<Ipv6Cidr>("2001:db8::1/64"));
    assert_eq!(Err(NetworkParseError::InvalidHostPart), cidr_from_str::<Ipv4Cidr>("128.0.0.0/0"));
    assert!(cidr_from_str::<Ipv4Cidr>("0.0.0.0/0").is_ok());
    assert!(cidr_from_str::<Ipv4Cidr>("10.0.0.4/30").is_ok());
}

#[test]
fn parse_rejects_malformed_address() {
    for text in [
        "", "/24", "10.0.0/24", "10.0.0.0.0/8", "10.0.0.256", "01.2.3.4", "1.2.3.04", "1..2.3",
        "1.2.3.", ".1.2.3", "1.2.3.4 ", " 1.2.3.4", "a.b.c.d", "1.2.3.4/8/8", "1234.1.1.1",
        "+1.2.3.4", "1.2.3.-4",
    ] {
        assert_eq!(
            Err(NetworkParseError::AddrParseError),
            cidr_from_str::<Ipv4Cidr>(text),
            "{:?}",
            text
        );
    }
    for text in [
        "", ":", ":::", "1::2::3", "1:2:3:4:5:6:7", "1:2:3:4:5:6:7:8:9", "12345::", "::g",
        "1:2:3:4:5:6:7::8", ":1:2:3:4:5:6:7", "1:2:3:4:5:6:7:", "1.2.3.4::", "::1.2.3.4:5",
        "1:2:3:4:5:6::1.2.3.4", "1:2:3:4:5:6:7:1.2.3.4", "::1.2.3", "::01.2.3.4", "fe80::1%eth0",
        "[::1]", "1:::2", "::1::",
    ] {
        assert_eq!(
            Err(NetworkParseError::AddrParseError),
            cidr_from_str::<Ipv6Cidr>(text),
            "{:?}",
            text
        );
    }
    assert_eq!(Err(NetworkParseError::AddrParseError), cidr_from_str::<IpCidr>("example/8"));
    // an ill-formed address is reported before an ill-formed length
    assert_eq!(Err(NetworkParseError::AddrParseError), cidr_from_str::<IpCidr>("10.0.0/x"));
    // an IPv4 network takes no IPv6 text, and the other way round
    assert_eq!(Err(NetworkParseError::AddrParseError), cidr_from_str::<Ipv4Cidr>("::1"));
    assert_eq!(Err(NetworkParseError::AddrParseError), cidr_from_str::<Ipv6Cidr>("127.0.0.1"));
}

#[test]
fn parse_rejects_malformed_length() {
    for text in [
        "10.0.0.0/", "10.0.0.0/abc", "10.0.0.0/256", "10.0.0.0/-1", "10.0.0.0/ 8", "10.0.0.0/8 ",
        "10.0.0.0/+", "10.0.0.0/++8", "10.0.0.0/0x8", "10.0.0.0/1000", "10.0.0.0/8.0",
    ] {
        assert_eq!(
            Err(NetworkParseError::NetworkLengthParseError),
            cidr_from_str::<IpCidr>(text),
            "{:?}",
            text
        );
    }
}

#[test]
fn parse_accepts_sign_and_leading_zeroes_in_length() {
    let plain: Ipv4Cidr = cidr_from_str("10.0.0.0/8").unwrap();
    assert_eq!(Ok(plain), cidr_from_str::<Ipv4Cidr>("10.0.0.0/+8"));
    assert_eq!(Ok(plain), cidr_from_str::<Ipv4Cidr>("10.0.0.0/008"));
    assert_eq!(Ok(plain), cidr_from_str::<Ipv4Cidr>("10.0.0.0/+0000000000000000000008"));
}

#[test]
fn parse_without_length_is_a_host() {
    let host: Ipv4Cidr = cidr_from_str("10.1.2.3").unwrap();
    assert_eq!(32, host.network_length());
    assert_eq!(v4(10, 1, 2, 3), host.first_address());
    assert_eq!(v4(10, 1, 2, 3), host.last_address());
    assert_eq!(Ipv4Cidr::new_host(v4(10, 1, 2, 3)), host);
    let host: IpCidr = cidr_from_str("::1").unwrap();
    assert!(host.is_ipv6());
    assert_eq!(128, host.network_length());
    assert_eq!(IpCidr::new_host(IpAddress::V6(v6([0, 0, 0, 0, 0, 0, 0, 1]))), host);
}

#[test]
fn parse_from_bytes_agrees_with_parse_from_str() {
    assert_eq!(
        cidr_from_str::<IpCidr>("2001:db8::/32"),
        cidr_from_bytes::<IpCidr>(b"2001:db8::/32")
    );
    assert_eq!(cidr_from_str::<IpCidr>("1.2.3.4/40"), cidr_from_bytes::<IpCidr>(b"1.2.3.4/40"));
    assert_eq!(
        Err(NetworkParseError::AddrParseError),
        cidr_from_bytes::<IpCidr>(&[0x31, 0x2e, 0xff, 0x2e, 0x31, 0x2e, 0x31])
    );
}

#[test]
fn parse_ipv6_forms() {
    let parse = |text: &str| Ipv6Address::address_from_str(text);
    assert_eq!(Ok(v6([0; 8])), parse("::"));
    assert_eq!(Ok(v6([0, 0, 0, 0, 0, 0, 0, 1])), parse("::1"));
    assert_eq!(Ok(v6([1, 0, 0, 0, 0, 0, 0, 0])), parse("1::"));
    assert_eq!(Ok(v6([1, 2, 3, 4, 5, 6, 7, 8])), parse("1:2:3:4:5:6:7:8"));
    assert_eq!(Ok(v6([0x2001, 0xdb8, 0, 0, 0, 0, 0, 0x1234])), parse("2001:db8::1234"));
    assert_eq!(Ok(v6([0x2001, 0xdb8, 0, 0, 0, 0, 0, 0x1234])), parse("2001:DB8:0:0::1234"));
    assert_eq!(Ok(v6([0xffff, 0xabcd, 0, 0, 0, 0, 0xef01, 0x0023])), parse("ffff:ABCD::EF01:0023"));
    assert_eq!(Ok(v6([1, 2, 3, 4, 5, 6, 7, 0])), parse("1:2:3:4:5:6:7::"));
    assert_eq!(Ok(v6([0, 1, 2, 3, 4, 5, 6, 7])), parse("::1:2:3:4:5:6:7"));
    assert_eq!(Ok(v6([1, 0, 2, 3, 4, 5, 6, 7])), parse("1::2:3:4:5:6:7"));
    assert_eq!(Ok(v6([0, 0, 0, 0, 0, 0xffff, 0x0102, 0x0304])), parse("::ffff:1.2.3.4"));
    assert_eq!(Ok(v6([0, 0, 0, 0, 0, 0, 0xc0a8, 0x0101])), parse("::192.168.1.1"));
    assert_eq!(Ok(v6([1, 2, 3, 4, 5, 6, 0xff00, 0x00ff])), parse("1:2:3:4:5:6:255.0.0.255"));
    assert_eq!(Ok(v6([1, 2, 3, 4, 5, 0, 0x0102, 0x0304])), parse("1:2:3:4:5::1.2.3.4"));
    assert_eq!(Ok(v6([0, 0, 0, 0, 0, 0, 0, 0])), parse("0:0:0:0:0:0:0:0"));
    assert_eq!(Ok(v6([0, 0, 0, 0, 0, 0, 0, 0])), parse("0000:0000::0000"));
}

#[test]
fn parse_ipv4_forms() {
    let parse = |text: &str| Ipv4Address::address_from_str(text);
    assert_eq!(Ok(v4(0, 0, 0, 0)), parse("0.0.0.0"));
    assert_eq!(Ok(v4(255, 255, 255, 255)), parse("255.255.255.255"));
    assert_eq!(Ok(v4(1, 20, 100, 9)), parse("1.20.100.9"));
    assert_eq!(Err(NetworkParseError::AddrParseError), parse("1.20.100"));
    assert_eq!(Err(NetworkParseError::AddrParseError), parse("1.20.100.00"));
    assert_eq!(Ok(v4(1, 2, 3, 4)), Ipv4Address::address_from_bytes(b"1.2.3.4"));
}

#[test]
fn parse_combined_address_tries_both_families() {
    assert_eq!(Ok(IpAddress::V4(v4(127, 0, 0, 1))), IpAddress::address_from_str("127.0.0.1"));
    assert_eq!(
        Ok(IpAddress::V6(v6([0, 0, 0, 0, 0, 0, 0x7f00, 1]))),
        IpAddress::address_from_str("::127.0.0.1")
    );
    assert_eq!(Err(NetworkParseError::AddrParseError), IpAddress::address_from_str("127.0.0.1.1"));
    assert!(IpAddress::V4(v4(1, 2, 3, 4)).is_ipv4());
    assert!(!IpAddress::V4(v4(1, 2, 3, 4)).is_ipv6());
    assert!(IpAddress::V6(v6([0; 8])).is_ipv6());
    assert!(!IpAddress::V6(v6([0; 8])).is_ipv4());
}

#[test]
fn text_helpers() {
    assert_eq!(3, find_byte(b"abc.def", 0, b'.'));
    assert_eq!(3, find_byte(b"abc.def", 3, b'.'));
    assert_eq!(7, find_byte(b"abc.def", 4, b'.'));
    assert_eq!(7, find_byte(b"abc.def", 7, b'.'));
    assert_eq!(Some(5), rfind_byte(b"a/b/c/d", b'/'));
    assert_eq!(Some(0), rfind_byte(b"/abc", b'/'));
    assert_eq!(None, rfind_byte(b"abc", b'/'));
    assert_eq!(None, rfind_byte(b"", b'/'));
    assert_eq!(b"c.d", field(b"abc.def", 2, 5));
    assert_eq!(b"", field(b"abc.def", 7, 7));
    assert_eq!(Some(0), parse_decimal(b"0"));
    assert_eq!(Some(7), parse_decimal(b"007"));
    assert_eq!(Some(255), parse_decimal(b"255"));
    assert_eq!(None, parse_decimal(b"256"));
    assert_eq!(None, parse_decimal(b"99999999999999999999999"));
    assert_eq!(None, parse_decimal(b""));
    assert_eq!(None, parse_decimal(b"1a"));
    assert_eq!(Some(24), parse_length(b"24"));
    assert_eq!(Some(24), parse_length(b"+24"));
    assert_eq!(None, parse_length(b"+"));
    assert_eq!(None, parse_length(b"-24"));
    assert_eq!(Some(9), parse_octet(b"9"));
    assert_eq!(Some(0), parse_octet(b"0"));
    assert_eq!(None, parse_octet(b"09"));
    assert_eq!(None, parse_octet(b"0255"));
    assert_eq!(None, parse_octet(b"300"));
    assert_eq!(Some([10, 20, 30, 40]), parse_ipv4(b"10.20.30.40"));
    assert_eq!(None, parse_ipv4(b"10.20.30.40."));
    assert_eq!(Some(10), parse_hex_digit(b'a'));
    assert_eq!(Some(15), parse_hex_digit(b'F'));
    assert_eq!(Some(9), parse_hex_digit(b'9'));
    assert_eq!(None, parse_hex_digit(b'g'));
    assert_eq!(None, parse_hex_digit(b'/'));
    assert_eq!(Some(0xbeef), parse_group(b"bEeF"));
    assert_eq!(Some(0), parse_group(b"0000"));
    assert_eq!(None, parse_group(b""));
    assert_eq!(None, parse_group(b"00000"));
    assert_eq!(Some(vec![]), parse_groups(b"", true));
    assert_eq!(Some(vec![1, 2, 0xfff]), parse_groups(b"1:2:fff", false));
    assert_eq!(Some(vec![1, 0x0102, 0x0304]), parse_groups(b"1:1.2.3.4", true));
    assert_eq!(None, parse_groups(b"1:1.2.3.4", false));
    assert_eq!(None, parse_groups(b"1:", true));
    assert_eq!(Some(1), find_double_colon(b"1::2::"));
    assert_eq!(None, find_double_colon(b"1:2:3"));
    assert_eq!(None, find_double_colon(b":"));
    assert_eq!(Some([1, 0, 0, 0, 0, 0, 0, 2]), parse_ipv6(b"1::2"));
    assert_eq!(
        [0x12, 0x34, 0, 1, 0, 0, 0, 0, 0, 0, 0, 0, 0, 0, 0xff, 0xfe],
        groups_to_octets(&[0x1234, 1, 0, 0, 0, 0, 0, 0xfffe])
    );
}

#[test]
fn new_checks_length_then_host_bits() {
    assert_eq!(Err(too_long(33, Family::Ipv4)), Ipv4Cidr::new(v4(10, 0, 0, 1), 33));
    assert_eq!(Err(NetworkParseError::InvalidHostPart), Ipv4Cidr::new(v4(10, 0, 0, 1), 31));
    let net = Ipv4Cidr::new(v4(10, 0, 0, 0), 31).unwrap();
    assert_eq!(v4(10, 0, 0, 0), net.first_address());
    assert_eq!(v4(10, 0, 0, 1), net.last_address());
    assert_eq!(31, net.network_length());
    assert_eq!(Err(too_long(129, Family::Ipv6)), Ipv6Cidr::new(v6([0; 8]), 129));
    assert_eq!(
        Err(NetworkParseError::InvalidHostPart),
        Ipv6Cidr::new(v6([0x2001, 0xdb8, 0, 0, 0, 0, 0, 1]), 127)
    );
    let net = Ipv6Cidr::new(v6([0x2001, 0xdb8, 0, 0, 0, 0, 0, 0]), 32).unwrap();
    assert_eq!(v6([0x2001, 0xdb8, 0, 0, 0, 0, 0, 0]), net.first_address());
    assert_eq!(
        v6([0x2001, 0xdb8, 0xffff, 0xffff, 0xffff, 0xffff, 0xffff, 0xffff]),
        net.last_address()
    );
    assert_eq!(v6([0xffff, 0xffff, 0, 0, 0, 0, 0, 0]), net.mask());
    assert_eq!(Family::Ipv6, net.family());
    assert!(net.contains(&v6([0x2001, 0xdb8, 1, 2, 3, 4, 5, 6])));
    assert!(!net.contains(&v6([0x2001, 0xdb9, 0, 0, 0, 0, 0, 0])));
    assert_eq!(
        Err(too_long(40, Family::Ipv4)),
        IpCidr::new(IpAddress::V4(v4(10, 0, 0, 0)), 40)
    );
    assert!(IpCidr::new(IpAddress::V6(v6([0; 8])), 40).is_ok());
}

#[test]
fn mask_for_every_ipv4_length() {
    for len in 0..=32u8 {
        let net = Ipv4Cidr::new(v4(0, 0, 0, 0), len).unwrap();
        let expected: u32 = if len == 0 { 0 } else { u32::MAX << (32 - len as u32) };
        assert_eq!(Ipv4Address(expected.to_be_bytes()), net.mask());
        assert_eq!(Ipv4Address((!expected).to_be_bytes()), net.last_address());
    }
}

#[test]
fn combined_contains_is_false_across_families() {
    let net4: IpCidr = cidr_from_str("0.0.0.0/0").unwrap();
    let net6: IpCidr = cidr_from_str("::/0").unwrap();
    assert!(net4.contains(&IpAddress::V4(v4(8, 8, 8, 8))));
    assert!(!net4.contains(&IpAddress::V6(v6([0; 8]))));
    assert!(net6.contains(&IpAddress::V6(v6([1, 2, 3, 4, 5, 6, 7, 8]))));
    assert!(!net6.contains(&IpAddress::V4(v4(0, 0, 0, 0))));
    assert_eq!(Family::Ipv4, net4.family());
    assert_eq!(Family::Ipv6, net6.family());
    assert!(net6.is_ipv6());
    assert!(!net6.is_ipv4());
    assert_eq!(0, net6.network_length());
    assert_eq!(IpAddress::V6(v6([0; 8])), net6.mask());
    assert_eq!(IpAddress::V6(v6([0xffff; 8])), net6.last_address());
    assert_eq!(IpAddress::V6(v6([0; 8])), net6.first_address());
}

#[test]
fn first_and_last_keep_the_network_length() {
    let net: Ipv4Cidr = cidr_from_str("172.16.0.0/12").unwrap();
    let first = net.first();
    let last = net.last();
    assert_eq!(v4(172, 16, 0, 0), first.address());
    assert_eq!(12, first.network_length());
    assert_eq!(v4(172, 31, 255, 255), last.address());
    assert_eq!(12, last.network_length());
    assert_eq!(net, first.network());
    assert_eq!(net, last.network());
    let net: IpCidr = cidr_from_str("fe80::/10").unwrap();
    match net.first() {
        IpInet::V6(inet) => {
            assert_eq!(v6([0xfe80, 0, 0, 0, 0, 0, 0, 0]), inet.address());
            assert_eq!(10, inet.network_length());
        },
        IpInet::V4(_) => panic!("family changed"),
    }
    assert_eq!(IpAddress::V6(v6([0xfebf, 0xffff, 0xffff, 0xffff, 0xffff, 0xffff, 0xffff, 0xffff])), net.last().address());
    assert_eq!(net, net.last().network());
    assert!(net.first().is_ipv6());
    assert!(!net.first().is_ipv4());
    assert_eq!(Family::Ipv6, net.first().family());
}

#[test]
fn inet_new_checks_only_the_length() {
    assert_eq!(
        Err(NetworkLengthTooLongError { length: 33, family: Family::Ipv4 }),
        Ipv4Inet::new(v4(10, 0, 0, 1), 33)
    );
    assert_eq!(NetworkLengthTooLongError { length: 7, family: Family::Ipv6 }, NetworkLengthTooLongError::new(7, Family::Ipv6));
    let host = Ipv4Inet::new(v4(10, 0, 0, 1), 8).unwrap();
    assert_eq!(v4(10, 0, 0, 1), host.address());
    assert_eq!(8, host.network_length());
    assert_eq!(Family::Ipv4, host.family());
    assert_eq!(Ipv4Cidr::new(v4(10, 0, 0, 0), 8).unwrap(), host.network());
    assert!(host.contains(&v4(10, 255, 0, 3)));
    assert!(!host.contains(&v4(11, 0, 0, 1)));
    assert_eq!(32, Ipv4Inet::new_host(v4(1, 1, 1, 1)).network_length());
    assert_eq!(
        Err(NetworkLengthTooLongError { length: 200, family: Family::Ipv6 }),
        Ipv6Inet::new(v6([0; 8]), 200)
    );
    let host = Ipv6Inet::new(v6([0x2001, 0xdb8, 0, 0, 0, 0, 0, 9]), 64).unwrap();
    assert_eq!(Ipv6Cidr::new(v6([0x2001, 0xdb8, 0, 0, 0, 0, 0, 0]), 64).unwrap(), host.network());
    assert_eq!(128, Ipv6Inet::new_host(v6([0; 8])).network_length());
    assert_eq!(Family::Ipv6, host.family());
    assert!(host.contains(&v6([0x2001, 0xdb8, 0, 0, 9, 9, 9, 9])));
    let host = IpInet::new(IpAddress::V4(v4(10, 0, 0, 1)), 8).unwrap();
    assert!(host.is_ipv4());
    assert_eq!(IpAddress::V4(v4(10, 0, 0, 1)), host.address());
    assert_eq!(8, host.network_length());
    assert!(host.contains(&IpAddress::V4(v4(10, 9, 9, 9))));
    assert!(!host.contains(&IpAddress::V6(v6([0; 8]))));
    assert_eq!(
        Err(NetworkLengthTooLongError { length: 33, family: Family::Ipv4 }),
        IpInet::new(IpAddress::V4(v4(10, 0, 0, 1)), 33)
    );
    assert_eq!(128, IpInet::new_host(IpAddress::V6(v6([0; 8]))).network_length());
}

#[test]
fn inet_next_walks_the_network() {
    let mut host = Ipv4Inet::new(v4(10, 0, 0, 248), 30).unwrap();
    let mut seen = vec![host.address()];
    while host.next() {
        seen.push(host.address());
    }
    assert_eq!(vec![v4(10, 0, 0, 248), v4(10, 0, 0, 249), v4(10, 0, 0, 250), v4(10, 0, 0, 251)], seen);
    assert_eq!(v4(10, 0, 0, 248), host.address());
    assert_eq!(30, host.network_length());
    // where the last network bit is 1, the carry runs on beyond it
    let mut host = Ipv4Inet::new(v4(10, 0, 0, 255), 30).unwrap();
    assert!(!host.next());
    assert_eq!(v4(10, 0, 1, 4), host.address());
    assert_eq!(30, host.network_length());
    let mut host = Ipv6Inet::new(v6([0, 0, 0, 0, 0, 0, 0, 0xfffe]), 112).unwrap();
    assert!(host.next());
    assert_eq!(v6([0, 0, 0, 0, 0, 0, 0, 0xffff]), host.address());
    assert!(!host.next());
    assert_eq!(v6([0, 0, 0, 0, 0, 0, 0, 0]), host.address());
    let mut host = IpInet::new(IpAddress::V4(v4(1, 2, 3, 4)), 32).unwrap();
    assert!(!host.next());
    assert_eq!(IpAddress::V4(v4(1, 2, 3, 4)), host.address());
    let mut host = IpInet::new(IpAddress::V4(v4(255, 255, 255, 255)), 0).unwrap();
    assert!(!host.next());
    assert_eq!(IpAddress::V4(v4(0, 0, 0, 0)), host.address());
}

#[test]
fn networks_are_ordered_by_address_then_length() {
    let a = Ipv4Cidr::new(v4(10, 0, 0, 0), 8).unwrap();
    let b = Ipv4Cidr::new(v4(10, 0, 0, 0), 16).unwrap();
    let c = Ipv4Cidr::new(v4(10, 1, 0, 0), 16).unwrap();
    assert!(a < b);
    assert!(b < c);
    assert!(Family::Ipv4 < Family::Ipv6);
    assert!(IpCidr::V4(c) < IpCidr::V6(Ipv6Cidr::new(v6([0; 8]), 0).unwrap()));
}

#[test]
fn family_len_is_the_width() {
    assert_eq!(32, Family::Ipv4.len());
    assert_eq!(128, Family::Ipv6.len());
}

#[test]
fn length_reads_like_an_eight_bit_integer() {
    let mut texts: Vec<String> = Vec::new();
    for n in 0..=300u32 {
        texts.push(n.to_string());
        texts.push(format!("+{}", n));
        texts.push(format!("-{}", n));
        texts.push(format!("0{}", n));
        texts.push(format!("{} ", n));
        texts.push(format!("{}a", n));
    }
    for text in ["", "+", "-", "++1", "+-1", "0x10", "1_0", " 1", "1.0", "٣"] {
        texts.push(text.to_string());
    }
    for text in texts {
        assert_eq!(text.parse::<u8>().ok(), parse_length(text.as_bytes()), "{:?}", text);
    }
}
