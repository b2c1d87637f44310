//! Networks of either address family.

use vstd::prelude::*;
use crate::address::{AddressModel, IpAddress};
use crate::cidr::direct::{Ipv4Cidr, Ipv6Cidr};
use crate::errors::NetworkParseError;
use crate::family::Family;
use crate::format::{ascii_chars, cidr_format, ipv4_format, ipv6_format};
use crate::inet::IpInet;
use crate::traits::{Cidr, NetworkModel};

verus! {

/// A network of either address family.
#[derive(Clone, Copy, Debug, PartialEq, Eq, PartialOrd, Ord, Hash)]
pub enum IpCidr {
    /// An IPv4 network.
    V4(Ipv4Cidr),
    /// An IPv6 network.
    V6(Ipv6Cidr),
}

impl IpCidr {
    /// Whether representing an IPv4 network
    pub fn is_ipv4(&self) -> (v4: bool)
        ensures
            v4 == (*self is V4),
            v4 == (self.model().family == Family::Ipv4),
    {
        match *self {
            IpCidr::V4(ref c) => {
                let _ = c.family();
                true
            },
            IpCidr::V6(ref c) => {
                let _ = c.family();
                false
            },
        }
    }

    /// Whether representing an IPv6 network
    pub fn is_ipv6(&self) -> (v6: bool)
        ensures
            v6 == (*self is V6),
            v6 == (self.model().family == Family::Ipv6),
    {
        match *self {
            IpCidr::V4(ref c) => {
                let _ = c.family();
                false
            },
            IpCidr::V6(ref c) => {
                let _ = c.family();
                true
            },
        }
    }
}

impl IpCidr {
    /// Two networks that stand for the same model are the same network.
    pub proof fn lemma_model_determines(&self, other: &Self)
        requires
            self.model() == other.model(),
        ensures
            *self == *other,
    {
        match (*self, *other) {
            (IpCidr::V4(a), IpCidr::V4(b)) => {
                a.lemma_model_determines(&b);
            },
            (IpCidr::V6(a), IpCidr::V6(b)) => {
                a.lemma_model_determines(&b);
            },
            (IpCidr::V4(a), IpCidr::V6(b)) => {
                a.lemma_octets();
                b.lemma_octets();
            },
            (IpCidr::V6(a), IpCidr::V4(b)) => {
                a.lemma_octets();
                b.lemma_octets();
            },
        }
    }

    /// The text of the network: its address in the text of its family, a
    /// slash, and its length.
    pub fn to_text(&self) -> (text: String)
        ensures
            text@ == ascii_chars(
                match *self {
                    IpCidr::V4(c) => cidr_format(ipv4_format(c.octets()), c.model().len),
                    IpCidr::V6(c) => cidr_format(ipv6_format(c.octets()), c.model().len),
                },
            ),
    {
        match *self {
            IpCidr::V4(ref c) => c.to_text(),
            IpCidr::V6(ref c) => c.to_text(),
        }
    }
}

impl From<Ipv4Cidr> for IpCidr {
    fn from(c: Ipv4Cidr) -> (cidr: IpCidr) {
        IpCidr::V4(c)
    }
}

impl vstd::std_specs::convert::FromSpecImpl<Ipv4Cidr> for IpCidr {
    open spec fn obeys_from_spec() -> bool {
        true
    }

    open spec fn from_spec(c: Ipv4Cidr) -> IpCidr {
        IpCidr::V4(c)
    }
}

impl From<Ipv6Cidr> for IpCidr {
    fn from(c: Ipv6Cidr) -> (cidr: IpCidr) {
        IpCidr::V6(c)
    }
}

impl vstd::std_specs::convert::FromSpecImpl<Ipv6Cidr> for IpCidr {
    open spec fn obeys_from_spec() -> bool {
        true
    }

    open spec fn from_spec(c: Ipv6Cidr) -> IpCidr {
        IpCidr::V6(c)
    }
}

impl Cidr for IpCidr {
    type Address = IpAddress;

    type Inet = IpInet;

    open spec fn address_model(addr: IpAddress) -> AddressModel {
        addr@
    }

    open spec fn inet_model(inet: IpInet) -> NetworkModel {
        inet.model()
    }

    open spec fn model(&self) -> NetworkModel {
        match *self {
            IpCidr::V4(c) => c.model(),
            IpCidr::V6(c) => c.model(),
        }
    }

    fn new(addr: IpAddress, len: u8) -> (made: Result<Self, NetworkParseError>) {
        match addr {
            IpAddress::V4(a) => match Ipv4Cidr::new(a, len) {
                Ok(c) => Ok(IpCidr::V4(c)),
                Err(e) => Err(e),
            },
            IpAddress::V6(a) => match Ipv6Cidr::new(a, len) {
                Ok(c) => Ok(IpCidr::V6(c)),
                Err(e) => Err(e),
            },
        }
    }

    fn new_host(addr: IpAddress) -> (cidr: Self) {
        match addr {
            IpAddress::V4(a) => IpCidr::V4(Ipv4Cidr::new_host(a)),
            IpAddress::V6(a) => IpCidr::V6(Ipv6Cidr::new_host(a)),
        }
    }

    fn first_address(&self) -> (addr: IpAddress) {
        match *self {
            IpCidr::V4(ref c) => IpAddress::V4(c.first_address()),
            IpCidr::V6(ref c) => IpAddress::V6(c.first_address()),
        }
    }

    fn first(&self) -> (inet: IpInet) {
        match *self {
            IpCidr::V4(ref c) => IpInet::V4(c.first()),
            IpCidr::V6(ref c) => IpInet::V6(c.first()),
        }
    }

    fn last_address(&self) -> (addr: IpAddress) {
        match *self {
            IpCidr::V4(ref c) => IpAddress::V4(c.last_address()),
            IpCidr::V6(ref c) => IpAddress::V6(c.last_address()),
        }
    }

    fn last(&self) -> (inet: IpInet) {
        match *self {
            IpCidr::V4(ref c) => IpInet::V4(c.last()),
            IpCidr::V6(ref c) => IpInet::V6(c.last()),
        }
    }

    fn network_length(&self) -> (len: u8) {
        match *self {
            IpCidr::V4(ref c) => c.network_length(),
            IpCidr::V6(ref c) => c.network_length(),
        }
    }

    fn family(&self) -> (family: Family) {
        match *self {
            IpCidr::V4(ref c) => c.family(),
            IpCidr::V6(ref c) => c.family(),
        }
    }

    fn mask(&self) -> (addr: IpAddress) {
        match *self {
            IpCidr::V4(ref c) => IpAddress::V4(c.mask()),
            IpCidr::V6(ref c) => IpAddress::V6(c.mask()),
        }
    }

    fn contains(&self, addr: &IpAddress) -> (inside: bool) {
        match *self {
            IpCidr::V4(ref c) => match *addr {
                IpAddress::V4(ref a) => c.contains(a),
                IpAddress::V6(_) => {
                    let _ = c.family();
                    false
                },
            },
            IpCidr::V6(ref c) => match *addr {
                IpAddress::V4(_) => {
                    let _ = c.family();
                    false
                },
                IpAddress::V6(ref a) => c.contains(a),
            },
        }
    }
}

} // verus!
