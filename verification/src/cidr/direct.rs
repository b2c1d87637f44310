//! Networks of a single address family.

use vstd::prelude::*;
use crate::address::{AddressModel, IpAddress, Ipv4Address, Ipv6Address};
use crate::bigendian::BigEndianManipulation;
use crate::bits::{all_from, lemma_fill_is_noop};
use crate::byte::lemma_byte_masks;
use crate::cidr::combined::IpCidr;
use crate::cidr::from_str::cidr_text;
use crate::errors::{NetworkLengthTooLongError, NetworkParseError};
use crate::family::Family;
use crate::format::{
    all_ascii, ascii_chars, cidr_format, decimal_digits, ipv4_cidr_string, ipv4_format,
    ipv6_cidr_string, ipv6_format,
};
use crate::inet::{Ipv4Inet, Ipv6Inet};
use crate::reading::{
    is_address_byte, lemma_cidr_reads_back, lemma_decimal_digits, lemma_ipv4_address_reads_back,
    lemma_ipv4_format_shape, lemma_ipv6_address_reads_back, lemma_ipv6_reads_back,
};
use crate::text::is_digit;
use crate::traits::{Cidr, NetworkModel};

verus! {

/// An IPv4 network: no bit of the address is set beyond the network length.
#[derive(Clone, Copy, Debug, PartialEq, Eq, PartialOrd, Ord, Hash)]
pub struct Ipv4Cidr {
    address: Ipv4Address,
    network_length: u8,
}

impl Ipv4Cidr {
    #[verifier::type_invariant]
    spec fn valid(&self) -> bool {
        self.model().is_cidr()
    }

    /// The bytes of the network's address in network order.
    pub closed spec fn octets(&self) -> Seq<u8> {
        self.address.0@
    }

    /// The bytes of the address are what the bits of the model spell, and
    /// the family is IPv4.
    pub proof fn lemma_octets(&self)
        ensures
            self.octets().len() == 4,
            u8::bits(self.octets()) == self.model().bits,
            self.model().family == Family::Ipv4,
    {
    }

    /// Two networks that stand for the same model are the same network.
    pub proof fn lemma_model_determines(&self, other: &Self)
        requires
            self.model() == other.model(),
        ensures
            *self == *other,
    {
        u8::lemma_bits_injective(self.address.0@, other.address.0@);
        assert(self.address.0 =~= other.address.0);
    }

    /// The text of a network is ASCII, and spells that network again: as a
    /// network of its family, and as one of either family.
    pub proof fn lemma_text_reads_back(&self)
        requires
            self.model().is_cidr(),
        ensures
            all_ascii(cidr_format(ipv4_format(self.octets()), self.model().len)),
            cidr_text::<Ipv4Cidr>(cidr_format(ipv4_format(self.octets()), self.model().len)) == Ok::<
                NetworkModel,
                NetworkParseError,
            >(self.model()),
            cidr_text::<IpCidr>(cidr_format(ipv4_format(self.octets()), self.model().len)) == Ok::<
                NetworkModel,
                NetworkParseError,
            >(self.model()),
    {
        let addr_text = ipv4_format(self.address.0@);
        let text = cidr_format(addr_text, self.network_length as nat);
        lemma_ipv4_address_reads_back(self.address);
        lemma_ipv4_format_shape(self.address.0@);
        lemma_cidr_reads_back::<Ipv4Cidr>(self.address, addr_text, self.network_length);
        lemma_cidr_reads_back::<IpCidr>(IpAddress::V4(self.address), addr_text, self.network_length);
        lemma_decimal_digits(self.network_length as nat);
        let digits = decimal_digits(self.network_length as nat);
        assert forall|i: int| 0 <= i < text.len() implies #[trigger] text[i] < 128 by {
            if i < addr_text.len() {
                assert(is_address_byte(addr_text[i]));
            } else if i > addr_text.len() {
                assert(is_digit(digits[i - addr_text.len() - 1]));
            }
        }
    }

    /// The text of the network: its address, a slash, and its length.
    pub fn to_text(&self) -> (text: String)
        ensures
            text@ == ascii_chars(cidr_format(ipv4_format(self.octets()), self.model().len)),
    {
        ipv4_cidr_string(&self.address.0, self.network_length)
    }

    /// The network at `address`, which has no bit set from `network_length` on.
    pub(crate) fn assemble(address: Ipv4Address, network_length: u8) -> (cidr: Self)
        requires
            network_length <= 32,
            all_from(address@.bits, network_length as int, false),
        ensures
            cidr.model() == (NetworkModel {
                family: Family::Ipv4,
                bits: address@.bits,
                len: network_length as nat,
            }),
    {
        Ipv4Cidr { address, network_length }
    }
}

impl Cidr for Ipv4Cidr {
    type Address = Ipv4Address;

    type Inet = Ipv4Inet;

    open spec fn address_model(addr: Ipv4Address) -> AddressModel {
        addr@
    }

    open spec fn inet_model(inet: Ipv4Inet) -> NetworkModel {
        inet.model()
    }

    closed spec fn model(&self) -> NetworkModel {
        NetworkModel {
            family: Family::Ipv4,
            bits: self.address@.bits,
            len: self.network_length as nat,
        }
    }

    fn new(addr: Ipv4Address, len: u8) -> (made: Result<Self, NetworkParseError>) {
        if len > 32 {
            Err(
                NetworkParseError::NetworkLengthTooLongError(
                    NetworkLengthTooLongError::new(len as usize, Family::Ipv4),
                ),
            )
        } else if !u8::is_zeroesfrom(&addr.0, len as usize) {
            Err(NetworkParseError::InvalidHostPart)
        } else {
            Ok(Ipv4Cidr { address: addr, network_length: len })
        }
    }

    fn new_host(addr: Ipv4Address) -> (cidr: Self) {
        Ipv4Cidr { address: addr, network_length: 32 }
    }

    fn first_address(&self) -> (addr: Ipv4Address) {
        proof {
            use_type_invariant(self);
            lemma_fill_is_noop(self.address@.bits, self.network_length as int, false);
        }
        self.address
    }

    fn first(&self) -> (inet: Ipv4Inet) {
        proof {
            use_type_invariant(self);
        }
        Ipv4Inet::assemble(self.first_address(), self.network_length)
    }

    fn last_address(&self) -> (addr: Ipv4Address) {
        let mut octets = self.address.0;
        u8::onesfrom(&mut octets, self.network_length as usize);
        Ipv4Address(octets)
    }

    fn last(&self) -> (inet: Ipv4Inet) {
        proof {
            use_type_invariant(self);
        }
        Ipv4Inet::assemble(self.last_address(), self.network_length)
    }

    fn network_length(&self) -> (len: u8) {
        proof {
            use_type_invariant(self);
        }
        self.network_length
    }

    fn family(&self) -> (family: Family)
        ensures
            family == Family::Ipv4,
    {
        Family::Ipv4
    }

    fn mask(&self) -> (addr: Ipv4Address) {
        let mut octets: [u8; 4] = [0xff, 0xff, 0xff, 0xff];
        let ghost full = octets@;
        assert(full.len() == 4 && forall|j: int| 0 <= j < 4 ==> full[j] == 0xffu8) by {
            broadcast use vstd::array::group_array_axioms;

        }
        u8::zeroesfrom(&mut octets, self.network_length as usize);
        proof {
            lemma_byte_masks(0);
            assert forall|i: int| 0 <= i < 32 implies u8::bits(full)[i] by {
                assert(full[i / 8] == 0xffu8);
            }
            assert(u8::bits(octets@) =~= self.model().mask().bits);
        }
        Ipv4Address(octets)
    }

    fn contains(&self, addr: &Ipv4Address) -> (inside: bool) {
        proof {
            use_type_invariant(self);
        }
        u8::contains(&self.address.0, self.network_length as usize, &addr.0)
    }
}

/// An IPv6 network: no bit of the address is set beyond the network length.
#[derive(Clone, Copy, Debug, PartialEq, Eq, PartialOrd, Ord, Hash)]
pub struct Ipv6Cidr {
    address: Ipv6Address,
    network_length: u8,
}

impl Ipv6Cidr {
    #[verifier::type_invariant]
    spec fn valid(&self) -> bool {
        self.model().is_cidr()
    }

    /// The bytes of the network's address in network order.
    pub closed spec fn octets(&self) -> Seq<u8> {
        self.address.0@
    }

    /// The bytes of the address are what the bits of the model spell, and
    /// the family is IPv6.
    pub proof fn lemma_octets(&self)
        ensures
            self.octets().len() == 16,
            u8::bits(self.octets()) == self.model().bits,
            self.model().family == Family::Ipv6,
    {
    }

    /// Two networks that stand for the same model are the same network.
    pub proof fn lemma_model_determines(&self, other: &Self)
        requires
            self.model() == other.model(),
        ensures
            *self == *other,
    {
        u8::lemma_bits_injective(self.address.0@, other.address.0@);
        assert(self.address.0 =~= other.address.0);
    }

    /// The text of a network is ASCII, and spells that network again: as a
    /// network of its family, and as one of either family.
    pub proof fn lemma_text_reads_back(&self)
        requires
            self.model().is_cidr(),
        ensures
            all_ascii(cidr_format(ipv6_format(self.octets()), self.model().len)),
            cidr_text::<Ipv6Cidr>(cidr_format(ipv6_format(self.octets()), self.model().len)) == Ok::<
                NetworkModel,
                NetworkParseError,
            >(self.model()),
            cidr_text::<IpCidr>(cidr_format(ipv6_format(self.octets()), self.model().len)) == Ok::<
                NetworkModel,
                NetworkParseError,
            >(self.model()),
    {
        let addr_text = ipv6_format(self.address.0@);
        let text = cidr_format(addr_text, self.network_length as nat);
        lemma_ipv6_address_reads_back(self.address);
        lemma_ipv6_reads_back(self.address.0@);
        lemma_cidr_reads_back::<Ipv6Cidr>(self.address, addr_text, self.network_length);
        lemma_cidr_reads_back::<IpCidr>(IpAddress::V6(self.address), addr_text, self.network_length);
        lemma_decimal_digits(self.network_length as nat);
        let digits = decimal_digits(self.network_length as nat);
        assert forall|i: int| 0 <= i < text.len() implies #[trigger] text[i] < 128 by {
            if i < addr_text.len() {
                assert(is_address_byte(addr_text[i]));
            } else if i > addr_text.len() {
                assert(is_digit(digits[i - addr_text.len() - 1]));
            }
        }
    }

    /// The text of the network: its address, a slash, and its length.
    pub fn to_text(&self) -> (text: String)
        ensures
            text@ == ascii_chars(cidr_format(ipv6_format(self.octets()), self.model().len)),
    {
        ipv6_cidr_string(&self.address.0, self.network_length)
    }

    /// The network at `address`, which has no bit set from `network_length` on.
    pub(crate) fn assemble(address: Ipv6Address, network_length: u8) -> (cidr: Self)
        requires
            network_length <= 128,
            all_from(address@.bits, network_length as int, false),
        ensures
            cidr.model() == (NetworkModel {
                family: Family::Ipv6,
                bits: address@.bits,
                len: network_length as nat,
            }),
    {
        Ipv6Cidr { address, network_length }
    }
}

impl Cidr for Ipv6Cidr {
    type Address = Ipv6Address;

    type Inet = Ipv6Inet;

    open spec fn address_model(addr: Ipv6Address) -> AddressModel {
        addr@
    }

    open spec fn inet_model(inet: Ipv6Inet) -> NetworkModel {
        inet.model()
    }

    closed spec fn model(&self) -> NetworkModel {
        NetworkModel {
            family: Family::Ipv6,
            bits: self.address@.bits,
            len: self.network_length as nat,
        }
    }

    fn new(addr: Ipv6Address, len: u8) -> (made: Result<Self, NetworkParseError>) {
        if len > 128 {
            Err(
                NetworkParseError::NetworkLengthTooLongError(
                    NetworkLengthTooLongError::new(len as usize, Family::Ipv6),
                ),
            )
        } else if !u8::is_zeroesfrom(&addr.0, len as usize) {
            Err(NetworkParseError::InvalidHostPart)
        } else {
            Ok(Ipv6Cidr { address: addr, network_length: len })
        }
    }

    fn new_host(addr: Ipv6Address) -> (cidr: Self) {
        Ipv6Cidr { address: addr, network_length: 128 }
    }

    fn first_address(&self) -> (addr: Ipv6Address) {
        proof {
            use_type_invariant(self);
            lemma_fill_is_noop(self.address@.bits, self.network_length as int, false);
        }
        self.address
    }

    fn first(&self) -> (inet: Ipv6Inet) {
        proof {
            use_type_invariant(self);
        }
        Ipv6Inet::assemble(self.first_address(), self.network_length)
    }

    fn last_address(&self) -> (addr: Ipv6Address) {
        let mut octets = self.address.0;
        u8::onesfrom(&mut octets, self.network_length as usize);
        Ipv6Address(octets)
    }

    fn last(&self) -> (inet: Ipv6Inet) {
        proof {
            use_type_invariant(self);
        }
        Ipv6Inet::assemble(self.last_address(), self.network_length)
    }

    fn network_length(&self) -> (len: u8) {
        proof {
            use_type_invariant(self);
        }
        self.network_length
    }

    fn family(&self) -> (family: Family)
        ensures
            family == Family::Ipv6,
    {
        Family::Ipv6
    }

    fn mask(&self) -> (addr: Ipv6Address) {
        let mut octets: [u8; 16] = [
            0xff, 0xff, 0xff, 0xff, 0xff, 0xff, 0xff, 0xff, 0xff, 0xff, 0xff, 0xff, 0xff, 0xff, 0xff, 0xff,
        ];
        let ghost full = octets@;
        assert(full.len() == 16 && forall|j: int| 0 <= j < 16 ==> full[j] == 0xffu8) by {
            broadcast use vstd::array::group_array_axioms;

        }
        u8::zeroesfrom(&mut octets, self.network_length as usize);
        proof {
            lemma_byte_masks(0);
            assert forall|i: int| 0 <= i < 128 implies u8::bits(full)[i] by {
                assert(full[i / 8] == 0xffu8);
            }
            assert(u8::bits(octets@) =~= self.model().mask().bits);
        }
        Ipv6Address(octets)
    }

    fn contains(&self, addr: &Ipv6Address) -> (inside: bool) {
        proof {
            use_type_invariant(self);
        }
        u8::contains(&self.address.0, self.network_length as usize, &addr.0)
    }
}

} // verus!
