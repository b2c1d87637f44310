//! Host addresses that remember the length of the network they lie in.

use vstd::prelude::*;
use crate::address::{IpAddress, Ipv4Address, Ipv6Address};
use crate::bigendian::BigEndianManipulation;
use crate::bits::{inc_guarded, lemma_filled_is_all};
use crate::cidr::combined::IpCidr;
use crate::cidr::direct::{Ipv4Cidr, Ipv6Cidr};
use crate::errors::NetworkLengthTooLongError;
use crate::family::Family;
use crate::traits::{Cidr, NetworkModel};

verus! {

/// An IPv4 host address together with the length of its network.
#[derive(Clone, Copy, Debug, PartialEq, Eq, PartialOrd, Ord, Hash)]
pub struct Ipv4Inet {
    address: Ipv4Address,
    network_length: u8,
}

impl Ipv4Inet {
    #[verifier::type_invariant]
    spec fn valid(&self) -> bool {
        self.model().is_inet()
    }

    /// What this host address stands for.
    pub closed spec fn model(&self) -> NetworkModel {
        NetworkModel {
            family: Family::Ipv4,
            bits: self.address@.bits,
            len: self.network_length as nat,
        }
    }

    /// Two hosts that stand for the same model are the same host.
    pub proof fn lemma_model_determines(&self, other: &Self)
        requires
            self.model() == other.model(),
        ensures
            *self == *other,
    {
        u8::lemma_bits_injective(self.address.0@, other.address.0@);
        assert(self.address.0 =~= other.address.0);
    }

    /// The host `address` in its network of `network_length` leading bits.
    pub(crate) fn assemble(address: Ipv4Address, network_length: u8) -> (inet: Self)
        requires
            network_length <= 32,
        ensures
            inet.model() == (NetworkModel {
                family: Family::Ipv4,
                bits: address@.bits,
                len: network_length as nat,
            }),
    {
        Ipv4Inet { address, network_length }
    }

    /// The host `addr` in its network of `len` leading bits. Fails exactly
    /// when `len` exceeds the family's width.
    pub fn new(addr: Ipv4Address, len: u8) -> (made: Result<Self, NetworkLengthTooLongError>)
        ensures
            match made {
                Ok(inet) => len <= 32 && inet.model() == (NetworkModel {
                    family: Family::Ipv4,
                    bits: addr@.bits,
                    len: len as nat,
                }),
                Err(e) => len > 32 && e == (NetworkLengthTooLongError {
                    length: len as usize,
                    family: Family::Ipv4,
                }),
            },
    {
        if len > 32 {
            Err(NetworkLengthTooLongError::new(len as usize, Family::Ipv4))
        } else {
            Ok(Ipv4Inet { address: addr, network_length: len })
        }
    }

    /// The host `addr` in the network that holds it alone.
    pub fn new_host(addr: Ipv4Address) -> (inet: Self)
        ensures
            inet.model() == (NetworkModel { family: Family::Ipv4, bits: addr@.bits, len: 32 }),
    {
        Ipv4Inet { address: addr, network_length: 32 }
    }

    /// Moves on to the next address. Returns `false` when the address was the
    /// last one of its network: every host bit is then 0, and the last bit of
    /// the network part is as it was.
    pub fn next(&mut self) -> (more: bool)
        ensures
            final(self).model().family == old(self).model().family,
            final(self).model().len == old(self).model().len,
            (final(self).model().bits, !more) == inc_guarded(
                old(self).model().bits,
                old(self).model().len,
            ),
    {
        proof {
            use_type_invariant(&*self);
        }
        let mut octets = self.address.0;
        let overflow = u8::inc(&mut octets, self.network_length as usize);
        self.address = Ipv4Address(octets);
        !overflow
    }

    /// The network that this host lies in.
    pub fn network(&self) -> (cidr: Ipv4Cidr)
        ensures
            cidr.model().address() == self.model().first_address(),
            cidr.model().len == self.model().len,
    {
        proof {
            use_type_invariant(self);
            lemma_filled_is_all(self.address@.bits, self.network_length as int, false);
        }
        let mut octets = self.address.0;
        u8::zeroesfrom(&mut octets, self.network_length as usize);
        Ipv4Cidr::assemble(Ipv4Address(octets), self.network_length)
    }

    /// The host address.
    pub fn address(&self) -> (addr: Ipv4Address)
        ensures
            addr@ == self.model().address(),
    {
        self.address
    }

    /// The length of the network that the host lies in.
    pub fn network_length(&self) -> (len: u8)
        ensures
            len == self.model().len,
            self.model().is_inet(),
    {
        proof {
            use_type_invariant(self);
        }
        self.network_length
    }

    /// The address family.
    pub fn family(&self) -> (family: Family)
        ensures
            family == self.model().family,
    {
        Family::Ipv4
    }

    /// Whether `addr` lies in the network of this host.
    pub fn contains(&self, addr: &Ipv4Address) -> (inside: bool)
        ensures
            inside == self.model().contains(addr@),
    {
        proof {
            use_type_invariant(self);
        }
        u8::contains(&self.address.0, self.network_length as usize, &addr.0)
    }
}

/// An IPv6 host address together with the length of its network.
#[derive(Clone, Copy, Debug, PartialEq, Eq, PartialOrd, Ord, Hash)]
pub struct Ipv6Inet {
    address: Ipv6Address,
    network_length: u8,
}

impl Ipv6Inet {
    #[verifier::type_invariant]
    spec fn valid(&self) -> bool {
        self.model().is_inet()
    }

    /// What this host address stands for.
    pub closed spec fn model(&self) -> NetworkModel {
        NetworkModel {
            family: Family::Ipv6,
            bits: self.address@.bits,
            len: self.network_length as nat,
        }
    }

    /// Two hosts that stand for the same model are the same host.
    pub proof fn lemma_model_determines(&self, other: &Self)
        requires
            self.model() == other.model(),
        ensures
            *self == *other,
    {
        u8::lemma_bits_injective(self.address.0@, other.address.0@);
        assert(self.address.0 =~= other.address.0);
    }

    /// The host `address` in its network of `network_length` leading bits.
    pub(crate) fn assemble(address: Ipv6Address, network_length: u8) -> (inet: Self)
        requires
            network_length <= 128,
        ensures
            inet.model() == (NetworkModel {
                family: Family::Ipv6,
                bits: address@.bits,
                len: network_length as nat,
            }),
    {
        Ipv6Inet { address, network_length }
    }

    /// The host `addr` in its network of `len` leading bits. Fails exactly
    /// when `len` exceeds the family's width.
    pub fn new(addr: Ipv6Address, len: u8) -> (made: Result<Self, NetworkLengthTooLongError>)
        ensures
            match made {
                Ok(inet) => len <= 128 && inet.model() == (NetworkModel {
                    family: Family::Ipv6,
                    bits: addr@.bits,
                    len: len as nat,
                }),
                Err(e) => len > 128 && e == (NetworkLengthTooLongError {
                    length: len as usize,
                    family: Family::Ipv6,
                }),
            },
    {
        if len > 128 {
            Err(NetworkLengthTooLongError::new(len as usize, Family::Ipv6))
        } else {
            Ok(Ipv6Inet { address: addr, network_length: len })
        }
    }

    /// The host `addr` in the network that holds it alone.
    pub fn new_host(addr: Ipv6Address) -> (inet: Self)
        ensures
            inet.model() == (NetworkModel { family: Family::Ipv6, bits: addr@.bits, len: 128 }),
    {
        Ipv6Inet { address: addr, network_length: 128 }
    }

    /// Moves on to the next address. Returns `false` when the address was the
    /// last one of its network: every host bit is then 0, and the last bit of
    /// the network part is as it was.
    pub fn next(&mut self) -> (more: bool)
        ensures
            final(self).model().family == old(self).model().family,
            final(self).model().len == old(self).model().len,
            (final(self).model().bits, !more) == inc_guarded(
                old(self).model().bits,
                old(self).model().len,
            ),
    {
        proof {
            use_type_invariant(&*self);
        }
        let mut octets = self.address.0;
        let overflow = u8::inc(&mut octets, self.network_length as usize);
        self.address = Ipv6Address(octets);
        !overflow
    }

    /// The network that this host lies in.
    pub fn network(&self) -> (cidr: Ipv6Cidr)
        ensures
            cidr.model().address() == self.model().first_address(),
            cidr.model().len == self.model().len,
    {
        proof {
            use_type_invariant(self);
            lemma_filled_is_all(self.address@.bits, self.network_length as int, false);
        }
        let mut octets = self.address.0;
        u8::zeroesfrom(&mut octets, self.network_length as usize);
        Ipv6Cidr::assemble(Ipv6Address(octets), self.network_length)
    }

    /// The host address.
    pub fn address(&self) -> (addr: Ipv6Address)
        ensures
            addr@ == self.model().address(),
    {
        self.address
    }

    /// The length of the network that the host lies in.
    pub fn network_length(&self) -> (len: u8)
        ensures
            len == self.model().len,
            self.model().is_inet(),
    {
        proof {
            use_type_invariant(self);
        }
        self.network_length
    }

    /// The address family.
    pub fn family(&self) -> (family: Family)
        ensures
            family == self.model().family,
    {
        Family::Ipv6
    }

    /// Whether `addr` lies in the network of this host.
    pub fn contains(&self, addr: &Ipv6Address) -> (inside: bool)
        ensures
            inside == self.model().contains(addr@),
    {
        proof {
            use_type_invariant(self);
        }
        u8::contains(&self.address.0, self.network_length as usize, &addr.0)
    }
}

/// A host address of either family together with the length of its network.
#[derive(Clone, Copy, Debug, PartialEq, Eq, PartialOrd, Ord, Hash)]
pub enum IpInet {
    /// An IPv4 host.
    V4(Ipv4Inet),
    /// An IPv6 host.
    V6(Ipv6Inet),
}

impl IpInet {
    /// What this host address stands for.
    pub open spec fn model(&self) -> NetworkModel {
        match *self {
            IpInet::V4(inet) => inet.model(),
            IpInet::V6(inet) => inet.model(),
        }
    }

    /// Whether this is an IPv4 host.
    pub fn is_ipv4(&self) -> (v4: bool)
        ensures
            v4 == (*self is V4),
    {
        match *self {
            IpInet::V4(_) => true,
            IpInet::V6(_) => false,
        }
    }

    /// Whether this is an IPv6 host.
    pub fn is_ipv6(&self) -> (v6: bool)
        ensures
            v6 == (*self is V6),
    {
        match *self {
            IpInet::V4(_) => false,
            IpInet::V6(_) => true,
        }
    }

    /// The host `addr` in its network of `len` leading bits. Fails exactly
    /// when `len` exceeds the width of the address's family.
    pub fn new(addr: IpAddress, len: u8) -> (made: Result<Self, NetworkLengthTooLongError>)
        ensures
            match made {
                Ok(inet) => len <= addr@.family.width() && inet.model() == (NetworkModel {
                    family: addr@.family,
                    bits: addr@.bits,
                    len: len as nat,
                }),
                Err(e) => len > addr@.family.width() && e == (NetworkLengthTooLongError {
                    length: len as usize,
                    family: addr@.family,
                }),
            },
    {
        match addr {
            IpAddress::V4(a) => match Ipv4Inet::new(a, len) {
                Ok(inet) => Ok(IpInet::V4(inet)),
                Err(e) => Err(e),
            },
            IpAddress::V6(a) => match Ipv6Inet::new(a, len) {
                Ok(inet) => Ok(IpInet::V6(inet)),
                Err(e) => Err(e),
            },
        }
    }

    /// The host `addr` in the network that holds it alone.
    pub fn new_host(addr: IpAddress) -> (inet: Self)
        ensures
            inet.model() == (NetworkModel {
                family: addr@.family,
                bits: addr@.bits,
                len: addr@.family.width(),
            }),
    {
        match addr {
            IpAddress::V4(a) => IpInet::V4(Ipv4Inet::new_host(a)),
            IpAddress::V6(a) => IpInet::V6(Ipv6Inet::new_host(a)),
        }
    }

    /// Moves on to the next address. Returns `false` when the address was the
    /// last one of its network: every host bit is then 0, and the last bit of
    /// the network part is as it was.
    pub fn next(&mut self) -> (more: bool)
        ensures
            final(self).model().family == old(self).model().family,
            final(self).model().len == old(self).model().len,
            (final(self).model().bits, !more) == inc_guarded(
                old(self).model().bits,
                old(self).model().len,
            ),
    {
        match self {
            IpInet::V4(inet) => inet.next(),
            IpInet::V6(inet) => inet.next(),
        }
    }

    /// The network that this host lies in.
    pub fn network(&self) -> (cidr: IpCidr)
        ensures
            cidr.model().address() == self.model().first_address(),
            cidr.model().len == self.model().len,
    {
        match *self {
            IpInet::V4(ref inet) => IpCidr::V4(inet.network()),
            IpInet::V6(ref inet) => IpCidr::V6(inet.network()),
        }
    }

    /// The host address.
    pub fn address(&self) -> (addr: IpAddress)
        ensures
            addr@ == self.model().address(),
    {
        match *self {
            IpInet::V4(ref inet) => IpAddress::V4(inet.address()),
            IpInet::V6(ref inet) => IpAddress::V6(inet.address()),
        }
    }

    /// The length of the network that the host lies in.
    pub fn network_length(&self) -> (len: u8)
        ensures
            len == self.model().len,
            self.model().is_inet(),
    {
        match *self {
            IpInet::V4(ref inet) => inet.network_length(),
            IpInet::V6(ref inet) => inet.network_length(),
        }
    }

    /// The address family.
    pub fn family(&self) -> (family: Family)
        ensures
            family == self.model().family,
    {
        match *self {
            IpInet::V4(_) => Family::Ipv4,
            IpInet::V6(_) => Family::Ipv6,
        }
    }

    /// Whether `addr` is of the same family and lies in the network of this host.
    pub fn contains(&self, addr: &IpAddress) -> (inside: bool)
        ensures
            inside == self.model().contains(addr@),
    {
        match *self {
            IpInet::V4(ref inet) => match *addr {
                IpAddress::V4(ref a) => inet.contains(a),
                IpAddress::V6(_) => false,
            },
            IpInet::V6(ref inet) => match *addr {
                IpAddress::V4(_) => false,
                IpAddress::V6(ref a) => inet.contains(a),
            },
        }
    }
}

} // verus!
