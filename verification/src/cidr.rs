//! Networks of each family, and of either.

pub mod combined;
pub mod direct;
pub mod from_str;
