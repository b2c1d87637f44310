//! Exact representations of IP network prefixes, built on a small set of
//! operations over fixed-width big-endian bit arrays.

pub mod address;
pub mod bigendian;
pub mod bits;
pub mod byte;
pub mod cidr;
pub mod errors;
pub mod family;
pub mod format;
pub mod inet;
pub mod local_addr_parser;
pub mod reading;
pub mod text;
pub mod traits;
