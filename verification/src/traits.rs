//! The operations that every kind of network offers.

use vstd::prelude::*;
use crate::address::AddressModel;
use crate::bits::{agree_upto, all_from, filled_from, lemma_fill_is_noop};
use crate::errors::{NetworkLengthTooLongError, NetworkParseError};
use crate::family::Family;

verus! {

/// What a network is: an address of some family and the count of its
/// leading bits that are fixed. The same model serves for a host address
/// that remembers its network length.
pub struct NetworkModel {
    pub family: Family,
    pub bits: Seq<bool>,
    pub len: nat,
}

impl NetworkModel {
    /// A host address within a network: the address has the family's width
    /// and the length does not exceed it.
    pub open spec fn is_inet(self) -> bool {
        &&& self.bits.len() == self.family.width()
        &&& self.len <= self.family.width()
    }

    /// A network: as a host address, and no bit is set from the network length on.
    pub open spec fn is_cidr(self) -> bool {
        &&& self.is_inet()
        &&& all_from(self.bits, self.len as int, false)
    }

    /// The address as given.
    pub open spec fn address(self) -> AddressModel {
        AddressModel { family: self.family, bits: self.bits }
    }

    /// The lowest address of the network: every bit from the network length on is 0.
    pub open spec fn first_address(self) -> AddressModel {
        AddressModel { family: self.family, bits: filled_from(self.bits, self.len as int, false) }
    }

    /// The highest address of the network: every bit from the network length on is 1.
    pub open spec fn last_address(self) -> AddressModel {
        AddressModel { family: self.family, bits: filled_from(self.bits, self.len as int, true) }
    }

    /// The network mask: the bits below the network length are 1, the others 0.
    pub open spec fn mask(self) -> AddressModel {
        AddressModel {
            family: self.family,
            bits: Seq::new(self.family.width(), |i: int| i < self.len),
        }
    }

    /// Whether `addr` is of the same family and has the same leading `len` bits.
    pub open spec fn contains(self, addr: AddressModel) -> bool {
        addr.family == self.family && agree_upto(self.bits, addr.bits, self.len as int)
    }
}

/// The network of `len` leading bits at `addr`, or the reason why there is
/// none: the length exceeds the family's width, or else `addr` has a bit set
/// from `len` on.
pub open spec fn checked_network(addr: AddressModel, len: u8) -> Result<
    NetworkModel,
    NetworkParseError,
> {
    if len > addr.family.width() {
        Err(
            NetworkParseError::NetworkLengthTooLongError(
                NetworkLengthTooLongError { length: len as usize, family: addr.family },
            ),
        )
    } else if !all_from(addr.bits, len as int, false) {
        Err(NetworkParseError::InvalidHostPart)
    } else {
        Ok(NetworkModel { family: addr.family, bits: addr.bits, len: len as nat })
    }
}

/// The network that holds `addr` alone.
pub open spec fn host_network(addr: AddressModel) -> NetworkModel {
    NetworkModel { family: addr.family, bits: addr.bits, len: addr.family.width() }
}

/// A network begins at its own address, and holds its first and its last address.
pub proof fn lemma_network_holds_its_bounds(network: NetworkModel)
    requires
        network.is_cidr(),
    ensures
        network.first_address() == network.address(),
        network.contains(network.first_address()),
        network.contains(network.last_address()),
{
    lemma_fill_is_noop(network.bits, network.len as int, false);
}

/// Every address that a network holds lies between its first and its last
/// address: it has a 1 wherever the first has one, and a 0 wherever the last has one.
pub proof fn lemma_network_bounds_its_addresses(network: NetworkModel, addr: AddressModel)
    requires
        network.is_inet(),
        addr.bits.len() == network.bits.len(),
        network.contains(addr),
    ensures
        forall|i: int|
            0 <= i < addr.bits.len() && network.first_address().bits[i] ==> addr.bits[i],
        forall|i: int|
            0 <= i < addr.bits.len() && addr.bits[i] ==> network.last_address().bits[i],
{
}

/// What `checked_network` accepts is a network, and the network of a host is one.
pub proof fn lemma_checked_network_is_cidr(addr: AddressModel, len: u8)
    requires
        addr.bits.len() == addr.family.width(),
    ensures
        checked_network(addr, len) matches Ok(network) ==> network.is_cidr(),
        host_network(addr).is_cidr(),
        host_network(addr).contains(addr),
{
}

/// Networks: an address and a network length, with no bit set beyond the length.
pub trait Cidr: Sized {
    /// The addresses of this kind of network.
    type Address;

    /// A host address that remembers the length of its network.
    type Inet;

    /// What an address stands for.
    spec fn address_model(addr: Self::Address) -> AddressModel;

    /// What a host address with its network length stands for.
    spec fn inet_model(inet: Self::Inet) -> NetworkModel;

    /// What this network stands for.
    spec fn model(&self) -> NetworkModel;

    /// The network of `len` leading bits at `addr`. Fails if `len` exceeds
    /// the family's width, or else if `addr` has a bit set from `len` on.
    fn new(addr: Self::Address, len: u8) -> (made: Result<Self, NetworkParseError>)
        ensures
            match made {
                Ok(cidr) => checked_network(Self::address_model(addr), len) == Ok::<
                    NetworkModel,
                    NetworkParseError,
                >(cidr.model()),
                Err(e) => checked_network(Self::address_model(addr), len) == Err::<
                    NetworkModel,
                    NetworkParseError,
                >(e),
            },
    ;

    /// The network that holds `addr` alone.
    fn new_host(addr: Self::Address) -> (cidr: Self)
        ensures
            cidr.model() == host_network(Self::address_model(addr)),
    ;

    /// The first address of the network.
    fn first_address(&self) -> (addr: Self::Address)
        ensures
            Self::address_model(addr) == self.model().first_address(),
    ;

    /// The first address of the network, with the network length.
    fn first(&self) -> (inet: Self::Inet)
        ensures
            Self::inet_model(inet).address() == self.model().first_address(),
            Self::inet_model(inet).len == self.model().len,
    ;

    /// The last address of the network.
    fn last_address(&self) -> (addr: Self::Address)
        ensures
            Self::address_model(addr) == self.model().last_address(),
    ;

    /// The last address of the network, with the network length.
    fn last(&self) -> (inet: Self::Inet)
        ensures
            Self::inet_model(inet).address() == self.model().last_address(),
            Self::inet_model(inet).len == self.model().len,
    ;

    /// The count of leading bits that the network fixes.
    fn network_length(&self) -> (len: u8)
        ensures
            len == self.model().len,
            self.model().is_cidr(),
    ;

    /// The address family of the network.
    fn family(&self) -> (family: Family)
        ensures
            family == self.model().family,
    ;

    /// The network mask.
    fn mask(&self) -> (addr: Self::Address)
        ensures
            Self::address_model(addr) == self.model().mask(),
    ;

    /// Whether `addr` lies in the network.
    fn contains(&self, addr: &Self::Address) -> (inside: bool)
        ensures
            inside == self.model().contains(Self::address_model(*addr)),
    ;
}

} // verus!
