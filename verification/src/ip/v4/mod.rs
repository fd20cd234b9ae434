//! IPv4 addresses and CIDR blocks.

pub mod address;
pub mod cidr;

pub use address::IPv4Address;
pub use cidr::IPv4CIDR;
