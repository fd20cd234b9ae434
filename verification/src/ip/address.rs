//! IP addresses of either family.

use crate::ip::error::AddressParseError;
use crate::ip::v4::address::IPv4Address;
use crate::ip::v6::address::IPv6Address;
use crate::text::chars::chars_of;
use crate::text::fields::is_free_of;
use std::cmp::Ordering;
use vstd::prelude::*;

verus! {

/// An IP address, either IPv4 or IPv6.
#[derive(Clone, Copy, Debug, Eq, Ord, Hash)]
pub enum IPAddress {
    /// An IPv4 address
    V4(IPv4Address),
    /// An IPv6 address
    V6(IPv6Address),
}

impl IPAddress {
    /// The canonical text of the address, which is that of its family.
    pub open spec fn text(&self) -> Seq<char> {
        match self {
            IPAddress::V4(address) => address.text(),
            IPAddress::V6(address) => address.text(),
        }
    }

    /// The address that `s` denotes, if any: the IPv4 address where `s` is
    /// the text of one, and else the IPv6 address where it is the text of
    /// one.
    pub open spec fn parse_text(s: Seq<char>) -> Option<IPAddress> {
        match IPv4Address::parse_text(s) {
            Some(address) => Some(IPAddress::V4(address)),
            None => match IPv6Address::parse_text(s) {
                Some(address) => Some(IPAddress::V6(address)),
                None => None,
            },
        }
    }

    /// The text of an address holds no slash.
    pub proof fn lemma_text_free(a: IPAddress)
        ensures
            is_free_of(a.text(), '/'),
    {
        match a {
            IPAddress::V4(address) => IPv4Address::lemma_text_free(address),
            IPAddress::V6(address) => IPv6Address::lemma_text_free(address),
        }
    }

    /// Parsing the canonical text of an address gives the address back, in
    /// its family.
    pub proof fn lemma_parse_text(a: IPAddress)
        ensures
            Self::parse_text(a.text()) == Some(a),
    {
        match a {
            IPAddress::V4(address) => {
                IPv4Address::lemma_parse_text(address);
            },
            IPAddress::V6(address) => {
                IPv6Address::lemma_parse_text(address);
                IPv6Address::lemma_text_colon(address);
                if IPv4Address::parse_text(address.text()) is Some {
                    IPv4Address::lemma_parsed_text_free(address.text());
                }
            },
        }
    }

    /// Reads the characters `s` as an address of either family.
    pub fn parse_chars(s: &[char]) -> (r: Option<IPAddress>)
        ensures
            r == Self::parse_text(s@),
    {
        match IPv4Address::parse_chars(s) {
            Some(address) => Some(IPAddress::V4(address)),
            None => match IPv6Address::parse_chars(s) {
                Some(address) => Some(IPAddress::V6(address)),
                None => None,
            },
        }
    }

    /// Reads `s` as an address of either family.
    pub fn parse(s: &str) -> (r: Result<IPAddress, AddressParseError>)
        ensures
            r == match Self::parse_text(s@) {
                Some(a) => Ok::<IPAddress, AddressParseError>(a),
                None => Err(AddressParseError::IP),
            },
    {
        let chars = chars_of(s);
        match Self::parse_chars(chars.as_slice()) {
            Some(a) => Ok(a),
            None => Err(AddressParseError::IP),
        }
    }

    /// Appends the canonical text of the address to `out`.
    pub fn push_text(&self, out: &mut Vec<char>)
        ensures
            final(out)@ == old(out)@ + self.text(),
    {
        match self {
            IPAddress::V4(address) => address.push_text(out),
            IPAddress::V6(address) => address.push_text(out),
        }
    }

    /// The canonical text of the address.
    pub fn to_string(&self) -> (s: String)
        ensures
            s@ == self.text(),
    {
        match self {
            IPAddress::V4(address) => address.to_string(),
            IPAddress::V6(address) => address.to_string(),
        }
    }

    /// How `self` stands to `other` in the order of addresses: an IPv4
    /// address comes before every IPv6 address, and two addresses of one
    /// family stand as they do in the order of that family.
    pub open spec fn order(&self, other: &Self) -> Ordering {
        match (*self, *other) {
            (IPAddress::V4(a), IPAddress::V4(b)) => a.order(&b),
            (IPAddress::V4(_), IPAddress::V6(_)) => Ordering::Less,
            (IPAddress::V6(_), IPAddress::V4(_)) => Ordering::Greater,
            (IPAddress::V6(a), IPAddress::V6(b)) => a.order(&b),
        }
    }

    /// Compares two addresses, by family first.
    pub fn compare(&self, other: &Self) -> (r: Ordering)
        ensures
            r == self.order(other),
    {
        match (self, other) {
            (IPAddress::V4(a), IPAddress::V4(b)) => a.compare(b),
            (IPAddress::V4(_), IPAddress::V6(_)) => Ordering::Less,
            (IPAddress::V6(_), IPAddress::V4(_)) => Ordering::Greater,
            (IPAddress::V6(a), IPAddress::V6(b)) => a.compare(b),
        }
    }
}

impl std::str::FromStr for IPAddress {
    type Err = AddressParseError;

    fn from_str(s: &str) -> (r: Result<Self, Self::Err>)
        ensures
            r == match Self::parse_text(s@) {
                Some(a) => Ok::<IPAddress, AddressParseError>(a),
                None => Err(AddressParseError::IP),
            },
    {
        IPAddress::parse(s)
    }
}

impl PartialEq for IPAddress {
    fn eq(&self, other: &Self) -> (r: bool) {
        match (self, other) {
            (IPAddress::V4(a), IPAddress::V4(b)) => a == b,
            (IPAddress::V6(a), IPAddress::V6(b)) => a == b,
            _ => false,
        }
    }
}

impl vstd::std_specs::cmp::PartialEqSpecImpl for IPAddress {
    open spec fn obeys_eq_spec() -> bool {
        true
    }

    open spec fn eq_spec(&self, other: &Self) -> bool {
        *self == *other
    }
}

impl PartialOrd for IPAddress {
    fn partial_cmp(&self, other: &Self) -> (r: Option<Ordering>) {
        Some(self.compare(other))
    }
}

impl vstd::std_specs::cmp::PartialOrdSpecImpl for IPAddress {
    open spec fn obeys_partial_cmp_spec() -> bool {
        true
    }

    open spec fn partial_cmp_spec(&self, other: &Self) -> Option<Ordering> {
        Some(self.order(other))
    }
}

impl From<IPv4Address> for IPAddress {
    fn from(address: IPv4Address) -> (r: IPAddress) {
        IPAddress::V4(address)
    }
}

impl vstd::std_specs::convert::FromSpecImpl<IPv4Address> for IPAddress {
    open spec fn obeys_from_spec() -> bool {
        true
    }

    open spec fn from_spec(address: IPv4Address) -> IPAddress {
        IPAddress::V4(address)
    }
}

impl From<IPv6Address> for IPAddress {
    fn from(address: IPv6Address) -> (r: IPAddress) {
        IPAddress::V6(address)
    }
}

impl vstd::std_specs::convert::FromSpecImpl<IPv6Address> for IPAddress {
    open spec fn obeys_from_spec() -> bool {
        true
    }

    open spec fn from_spec(address: IPv6Address) -> IPAddress {
        IPAddress::V6(address)
    }
}

} // verus!
