//! IPv6 addresses and CIDR blocks.

pub mod address;
pub mod cidr;
pub mod grammar;

pub use address::IPv6Address;
pub use cidr::IPv6CIDR;
