//! What can go wrong when a network is built or parsed.

use vstd::prelude::*;
use crate::family::Family;

verus! {

/// A network length beyond the width of the address family.
#[derive(Clone, Copy, Debug, PartialEq, Eq, Structural, Hash)]
pub struct NetworkLengthTooLongError {
    /// The length that was asked for.
    pub length: usize,
    /// The family whose width it exceeds.
    pub family: Family,
}

impl NetworkLengthTooLongError {
    /// Records that `length` is too long for `family`.
    pub fn new(length: usize, family: Family) -> (error: Self)
        ensures
            error == (NetworkLengthTooLongError { length, family }),
    {
        NetworkLengthTooLongError { length, family }
    }
}

/// Why a network could not be built or parsed.
#[derive(Clone, Copy, Debug, PartialEq, Eq, Structural, Hash)]
pub enum NetworkParseError {
    /// The address has bits set beyond the network length.
    InvalidHostPart,
    /// The text of the address is not well formed.
    AddrParseError,
    /// The text of the network length is not a decimal integer that fits in eight bits.
    NetworkLengthParseError,
    /// The network length exceeds the width of the address family.
    NetworkLengthTooLongError(NetworkLengthTooLongError),
}

} // verus!
