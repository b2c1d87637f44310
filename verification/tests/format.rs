use cidr::address::{IpAddress, Ipv4Address, Ipv6Address};
use cidr::cidr::combined::IpCidr;
use cidr::cidr::direct::{Ipv4Cidr, Ipv6Cidr};
use cidr::cidr::from_str::cidr_from_str;
use cidr::format::{
    group_at, hex_byte, ipv4_cidr_string, ipv4_string, ipv6_cidr_string, ipv6_string,
    is_ipv4_mapped, longest_zero_run, push_decimal, push_groups, push_hex, push_ipv4, push_ipv6,
    zero_run_at,
};
use cidr::local_addr_parser::ParseableAddress;
use cidr::traits::Cidr;

fn octets_of(groups: [u16; 8]) -> [u8; 16] {
    let mut octets = [0u8; 16];
    for (i, g) in groups.iter().enumerate() {
        octets[2 * i] = (g >> 8) as u8;
        octets[2 * i + 1] = (g & 0xff) as u8;
    }
    octets
}

fn v6(groups: [u16; 8]) -> Ipv6Address {
    Ipv6Address(octets_of(groups))
}

#[test]
fn ipv4_text_is_a_dotted_quad() {
    assert_eq!("0.0.0.0", Ipv4Address([0, 0, 0, 0]).to_text());
    assert_eq!("192.168.1.42", Ipv4Address([192, 168, 1, 42]).to_text());
    assert_eq!("255.255.255.255", Ipv4Address([255, 255, 255, 255]).to_text());
    assert_eq!("10.100.9.99", ipv4_string(&[10, 100, 9, 99]));
    assert_eq!("1.2.3.4", IpAddress::V4(Ipv4Address([1, 2, 3, 4])).to_text());
}

#[test]
fn ipv6_text_compresses_the_longest_zero_run() {
    assert_eq!("::", v6([0; 8]).to_text());
    assert_eq!("::1", v6([0, 0, 0, 0, 0, 0, 0, 1]).to_text());
    assert_eq!("1::", v6([1, 0, 0, 0, 0, 0, 0, 0]).to_text());
    assert_eq!("2001:db8::", v6([0x2001, 0xdb8, 0, 0, 0, 0, 0, 0]).to_text());
    assert_eq!("fe80::1", v6([0xfe80, 0, 0, 0, 0, 0, 0, 1]).to_text());
    assert_eq!("1:2:3:4:5:6:7:8", v6([1, 2, 3, 4, 5, 6, 7, 8]).to_text());
    assert_eq!("1:0:0:2::3", v6([1, 0, 0, 2, 0, 0, 0, 3]).to_text());
    assert_eq!("1::2:0:0:3", v6([1, 0, 0, 0, 2, 0, 0, 3]).to_text());
    assert_eq!("1:0:2:0:3:0:4:0", v6([1, 0, 2, 0, 3, 0, 4, 0]).to_text());
    assert_eq!("::1:0:0:2:3:4", v6([0, 0, 1, 0, 0, 2, 3, 4]).to_text());
    assert_eq!("1:2:3:4:5:6::", v6([1, 2, 3, 4, 5, 6, 0, 0]).to_text());
    assert_eq!("1:2:3:4:5:6:0:7", v6([1, 2, 3, 4, 5, 6, 0, 7]).to_text());
    assert_eq!("ffff:abcd:ef01:23:4:0:a:b", v6([0xffff, 0xabcd, 0xef01, 0x23, 4, 0, 0xa, 0xb]).to_text());
    assert_eq!("::ffff:1.2.3.4", v6([0, 0, 0, 0, 0, 0xffff, 0x0102, 0x0304]).to_text());
    assert_eq!("::ffff:0.0.0.0", v6([0, 0, 0, 0, 0, 0xffff, 0, 0]).to_text());
    assert_eq!("::102:304", v6([0, 0, 0, 0, 0, 0, 0x0102, 0x0304]).to_text());
    assert_eq!("::fffe:102:304", v6([0, 0, 0, 0, 0, 0xfffe, 0x0102, 0x0304]).to_text());
    assert_eq!("::1", ipv6_string(&octets_of([0, 0, 0, 0, 0, 0, 0, 1])));
    assert_eq!("::1", IpAddress::V6(v6([0, 0, 0, 0, 0, 0, 0, 1])).to_text());
}

#[test]
fn network_text_is_address_slash_length() {
    let net = Ipv4Cidr::new(Ipv4Address([192, 168, 1, 0]), 24).unwrap();
    assert_eq!("192.168.1.0/24", net.to_text());
    assert_eq!("192.168.1.0/24", IpCidr::from(net).to_text());
    assert_eq!("0.0.0.0/0", Ipv4Cidr::new(Ipv4Address([0, 0, 0, 0]), 0).unwrap().to_text());
    assert_eq!("1.2.3.4/32", Ipv4Cidr::new_host(Ipv4Address([1, 2, 3, 4])).to_text());
    let net = Ipv6Cidr::new(v6([0x2001, 0xdb8, 0, 0, 0, 0, 0, 0]), 32).unwrap();
    assert_eq!("2001:db8::/32", net.to_text());
    assert_eq!("2001:db8::/32", IpCidr::from(net).to_text());
    assert_eq!("::1/128", Ipv6Cidr::new_host(v6([0, 0, 0, 0, 0, 0, 0, 1])).to_text());
    assert_eq!("::/0", Ipv6Cidr::new(v6([0; 8]), 0).unwrap().to_text());
    assert_eq!("10.0.0.0/8", ipv4_cidr_string(&[10, 0, 0, 0], 8));
    assert_eq!("ff00::/8", ipv6_cidr_string(&octets_of([0xff00, 0, 0, 0, 0, 0, 0, 0]), 8));
}

#[test]
fn from_wraps_the_family() {
    let net4 = Ipv4Cidr::new(Ipv4Address([10, 0, 0, 0]), 8).unwrap();
    let net6 = Ipv6Cidr::new(v6([0xfe80, 0, 0, 0, 0, 0, 0, 0]), 10).unwrap();
    assert_eq!(IpCidr::V4(net4), IpCidr::from(net4));
    assert_eq!(IpCidr::V6(net6), IpCidr::from(net6));
    assert!(IpCidr::from(net4).is_ipv4());
    assert!(IpCidr::from(net6).is_ipv6());
}

#[test]
fn text_reads_back() {
    for text in [
        "192.168.1.0/24", "0.0.0.0/0", "10.1.2.3/32", "::/0", "::1/128", "2001:db8::/32",
        "1:2:3:4:5:6:7:8/128", "1:0:0:2::/64", "::ffff:1.2.3.4/128", "fe80::/10", "::102:304/128",
    ] {
        let net: IpCidr = cidr_from_str(text).unwrap();
        assert_eq!(text, net.to_text());
        assert_eq!(Ok(net), cidr_from_str::<IpCidr>(&net.to_text()));
    }
    let mut groups = [0u16; 8];
    let mut seed: u32 = 12345;
    for _ in 0..2000 {
        for g in groups.iter_mut() {
            seed = seed.wrapping_mul(1103515245).wrapping_add(12345);
            *g = match (seed >> 16) % 4 {
                0 | 1 => 0,
                2 => ((seed >> 8) & 0xff) as u16,
                _ => (seed >> 12) as u16,
            };
        }
        let addr = v6(groups);
        assert_eq!(Ok(addr), Ipv6Address::address_from_str(&addr.to_text()));
        let quad = Ipv4Address([(seed >> 24) as u8, (seed >> 16) as u8, (seed >> 8) as u8, seed as u8]);
        assert_eq!(Ok(quad), Ipv4Address::address_from_str(&quad.to_text()));
    }
}

#[test]
fn digits_have_no_leading_zeroes() {
    let mut out = b"x".to_vec();
    push_decimal(&mut out, 0);
    push_decimal(&mut out, 7);
    push_decimal(&mut out, 10);
    push_decimal(&mut out, 99);
    push_decimal(&mut out, 100);
    push_decimal(&mut out, 255);
    assert_eq!(b"x071099100255".to_vec(), out);
    let mut out = Vec::new();
    push_hex(&mut out, 0);
    push_hex(&mut out, 0xf);
    push_hex(&mut out, 0x10);
    push_hex(&mut out, 0xabc);
    push_hex(&mut out, 0x1000);
    push_hex(&mut out, 0xffff);
    assert_eq!(b"0f10abc1000ffff".to_vec(), out);
    assert_eq!(b'0', hex_byte(0));
    assert_eq!(b'9', hex_byte(9));
    assert_eq!(b'a', hex_byte(10));
    assert_eq!(b'f', hex_byte(15));
}

#[test]
fn pieces_of_the_ipv6_text() {
    let octets = octets_of([0x1234, 0, 0, 5, 0, 0, 0, 0x00ff]);
    assert_eq!(0x1234, group_at(&octets, 0));
    assert_eq!(0x00ff, group_at(&octets, 7));
    assert_eq!(0, zero_run_at(&octets, 0));
    assert_eq!(2, zero_run_at(&octets, 1));
    assert_eq!(1, zero_run_at(&octets, 2));
    assert_eq!(3, zero_run_at(&octets, 4));
    assert_eq!(0, zero_run_at(&octets, 8));
    assert_eq!((4, 3), longest_zero_run(&octets));
    assert_eq!((0, 0), longest_zero_run(&octets_of([1; 8])));
    assert_eq!((0, 8), longest_zero_run(&octets_of([0; 8])));
    assert_eq!((1, 2), longest_zero_run(&octets_of([1, 0, 0, 1, 0, 0, 1, 0])));
    assert!(is_ipv4_mapped(&octets_of([0, 0, 0, 0, 0, 0xffff, 7, 8])));
    assert!(!is_ipv4_mapped(&octets_of([0, 0, 0, 0, 1, 0xffff, 7, 8])));
    assert!(!is_ipv4_mapped(&octets_of([0, 0, 0, 0, 0, 0xfffe, 7, 8])));
    assert!(!is_ipv4_mapped(&octets_of([0, 0, 0, 0, 0, 0xfeff, 7, 8])));
    let mut out = b"[".to_vec();
    push_groups(&mut out, &octets, 0, 4);
    out.push(b'|');
    push_groups(&mut out, &octets, 3, 3);
    out.push(b'|');
    push_groups(&mut out, &octets, 7, 8);
    assert_eq!(b"[1234:0:0:5||ff".to_vec(), out);
    let mut out = b"[".to_vec();
    push_ipv4(&mut out, &octets, 12);
    out.push(b']');
    push_ipv6(&mut out, &octets);
    assert_eq!(b"[0.0.0.255]1234:0:0:5::ff".to_vec(), out);
}
