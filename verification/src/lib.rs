//! Value types for network addresses: IPv4 and IPv6 addresses, CIDR blocks
//! over them, and MAC addresses, each with strict text parsing, canonical
//! formatting, equality and ordering.

pub mod ip;
pub mod mac;
pub mod text;
