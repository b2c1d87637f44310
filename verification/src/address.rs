//! IP addresses as big-endian byte arrays.

use vstd::prelude::*;
use crate::bigendian::BigEndianManipulation;
use crate::family::Family;
use crate::format::{ascii_chars, ipv4_format, ipv4_string, ipv6_format, ipv6_string};

verus! {

/// What an address is: its family and its bits, most significant first.
pub struct AddressModel {
    pub family: Family,
    pub bits: Seq<bool>,
}

/// An IPv4 address: four bytes in network order.
#[derive(Clone, Copy, Debug, PartialEq, Eq, PartialOrd, Ord, Hash)]
pub struct Ipv4Address(pub [u8; 4]);

/// An IPv6 address: sixteen bytes in network order.
#[derive(Clone, Copy, Debug, PartialEq, Eq, PartialOrd, Ord, Hash)]
pub struct Ipv6Address(pub [u8; 16]);

/// An address of either family.
#[derive(Clone, Copy, Debug, PartialEq, Eq, PartialOrd, Ord, Hash)]
pub enum IpAddress {
    /// An IPv4 address.
    V4(Ipv4Address),
    /// An IPv6 address.
    V6(Ipv6Address),
}

impl View for Ipv4Address {
    type V = AddressModel;

    open spec fn view(&self) -> AddressModel {
        AddressModel { family: Family::Ipv4, bits: u8::bits(self.0@) }
    }
}

impl View for Ipv6Address {
    type V = AddressModel;

    open spec fn view(&self) -> AddressModel {
        AddressModel { family: Family::Ipv6, bits: u8::bits(self.0@) }
    }
}

impl View for IpAddress {
    type V = AddressModel;

    open spec fn view(&self) -> AddressModel {
        match *self {
            IpAddress::V4(a) => a@,
            IpAddress::V6(a) => a@,
        }
    }
}

impl Ipv4Address {
    /// The address as a dotted quad.
    pub fn to_text(&self) -> (text: String)
        ensures
            text@ == ascii_chars(ipv4_format(self.0@)),
    {
        ipv4_string(&self.0)
    }
}

impl Ipv6Address {
    /// The address in its canonical text.
    pub fn to_text(&self) -> (text: String)
        ensures
            text@ == ascii_chars(ipv6_format(self.0@)),
    {
        ipv6_string(&self.0)
    }
}

impl IpAddress {
    /// The address in the text of its family.
    pub fn to_text(&self) -> (text: String)
        ensures
            text@ == ascii_chars(
                match *self {
                    IpAddress::V4(a) => ipv4_format(a.0@),
                    IpAddress::V6(a) => ipv6_format(a.0@),
                },
            ),
    {
        match *self {
            IpAddress::V4(ref a) => a.to_text(),
            IpAddress::V6(ref a) => a.to_text(),
        }
    }

    /// Whether this is an IPv4 address.
    pub fn is_ipv4(&self) -> (v4: bool)
        ensures
            v4 == (self@.family == Family::Ipv4),
    {
        match *self {
            IpAddress::V4(_) => true,
            IpAddress::V6(_) => false,
        }
    }

    /// Whether this is an IPv6 address.
    pub fn is_ipv6(&self) -> (v6: bool)
        ensures
            v6 == (self@.family == Family::Ipv6),
    {
        match *self {
            IpAddress::V4(_) => false,
            IpAddress::V6(_) => true,
        }
    }
}

} // verus!
