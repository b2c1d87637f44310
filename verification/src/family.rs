//! Address families.

use vstd::prelude::*;

verus! {

/// The two families of IP addresses.
#[derive(Clone, Copy, Debug, PartialEq, Eq, Structural, PartialOrd, Ord, Hash)]
pub enum Family {
    /// IPv4: addresses of 32 bits.
    Ipv4,
    /// IPv6: addresses of 128 bits.
    Ipv6,
}

impl Family {
    /// The number of bits in an address of this family.
    pub open spec fn width(self) -> nat {
        match self {
            Family::Ipv4 => 32,
            Family::Ipv6 => 128,
        }
    }

    /// The length of an address of this family in bits.
    pub fn len(&self) -> (bits: u8)
        ensures
            bits == self.width(),
    {
        match *self {
            Family::Ipv4 => 32,
            Family::Ipv6 => 128,
        }
    }
}

} // verus!
