//! Networks from their textual form: an address, and after a `/` the network length.

use vstd::prelude::*;
use vstd::string::StringSliceAdditionalSpecFns;
use crate::errors::NetworkParseError;
use crate::local_addr_parser::ParseableAddress;
use crate::text::{
    decimal_text, field, last_index, lemma_last_index, parse_decimal, rfind_byte, PLUS, SLASH,
};
use crate::traits::{checked_network, host_network, Cidr, NetworkModel};

verus! {

/// The network length that `text` spells: decimal digits, worth at most 255,
/// which a `+` may precede.
pub open spec fn length_text(text: Seq<u8>) -> Option<u8> {
    if text.len() > 0 && text[0] == PLUS {
        decimal_text(text.subrange(1, text.len() as int))
    } else {
        decimal_text(text)
    }
}

/// The network that `text` spells, or the reason why it spells none. The
/// address runs up to the last `/`, and the network length follows it;
/// without a `/` the network holds the address alone. An ill-formed address
/// is reported before an ill-formed length, and that before a length or an
/// address that does not make a network.
pub open spec fn cidr_text<C>(text: Seq<u8>) -> Result<NetworkModel, NetworkParseError> where
    C: Cidr,
    C::Address: ParseableAddress,
 {
    match last_index(text, SLASH) {
        None => match C::Address::spelled(text) {
            None => Err(NetworkParseError::AddrParseError),
            Some(addr) => Ok(host_network(C::address_model(addr))),
        },
        Some(at) => match C::Address::spelled(text.subrange(0, at)) {
            None => Err(NetworkParseError::AddrParseError),
            Some(addr) => match length_text(text.subrange(at + 1, text.len() as int)) {
                None => Err(NetworkParseError::NetworkLengthParseError),
                Some(len) => checked_network(C::address_model(addr), len),
            },
        },
    }
}

/// The network length that `text` spells.
pub fn parse_length(text: &[u8]) -> (len: Option<u8>)
    ensures
        len == length_text(text@),
{
    if text.len() > 0 && text[0] == PLUS {
        parse_decimal(field(text, 1, text.len()))
    } else {
        parse_decimal(text)
    }
}

/// The network that the bytes of `text` spell.
pub fn cidr_from_bytes<C>(text: &[u8]) -> (parsed: Result<C, NetworkParseError>) where
    C: Cidr,
    C::Address: ParseableAddress,

    ensures
        match parsed {
            Ok(cidr) => cidr_text::<C>(text@) == Ok::<NetworkModel, NetworkParseError>(cidr.model()),
            Err(e) => cidr_text::<C>(text@) == Err::<NetworkModel, NetworkParseError>(e),
        },
{
    match rfind_byte(text, SLASH) {
        None => match C::Address::address_from_bytes(text) {
            Ok(addr) => Ok(C::new_host(addr)),
            Err(e) => Err(e),
        },
        Some(pos) => {
            proof {
                lemma_last_index(text@, SLASH);
            }
            let end = text.len();
            match C::Address::address_from_bytes(field(text, 0, pos)) {
                Err(e) => Err(e),
                Ok(addr) => match parse_length(field(text, pos + 1, end)) {
                    None => Err(NetworkParseError::NetworkLengthParseError),
                    Some(len) => C::new(addr, len),
                },
            }
        },
    }
}

/// The network that `s` spells: `<address>[/<network length>]`.
pub fn cidr_from_str<C>(s: &str) -> (parsed: Result<C, NetworkParseError>) where
    C: Cidr,
    C::Address: ParseableAddress,

    ensures
        match parsed {
            Ok(cidr) => cidr_text::<C>(s.spec_bytes()) == Ok::<NetworkModel, NetworkParseError>(
                cidr.model(),
            ),
            Err(e) => cidr_text::<C>(s.spec_bytes()) == Err::<NetworkModel, NetworkParseError>(e),
        },
{
    cidr_from_bytes(s.as_bytes())
}

} // verus!
