//! IP addresses and CIDR blocks of both families.

pub mod address;
pub mod cidr;
pub mod error;
pub mod notation;
pub mod v4;
pub mod v6;

pub use address::IPAddress;
pub use cidr::IPCIDR;
pub use error::AddressParseError;
pub use error::InvalidCIDRError;
pub use error::InvalidCIDRSource;
pub use error::InvalidPrefixError;
