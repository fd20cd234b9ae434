//! Errors of address and CIDR parsing, and their messages.

use crate::text::chars::string_of;
use crate::text::digits::dec_text;
use crate::text::digits::push_dec_u8;
use crate::text::digits::IntegerParseError;
use vstd::prelude::*;
use vstd::string::StringExecFns;

verus! {

/// A text is not an address in the syntax that was asked for.
#[derive(Clone, Copy, Debug, PartialEq, Eq, Structural, Hash)]
pub enum AddressParseError {
    /// The text is not an IPv4 address.
    IPv4,
    /// The text is not an IPv6 address.
    IPv6,
    /// The text is neither an IPv4 nor an IPv6 address.
    IP,
}

/// The CIDR prefix is invalid
#[derive(Clone, Copy, Debug, PartialEq, Eq, Structural, Hash)]
pub struct InvalidPrefixError {
    /// The invalid prefix
    pub prefix: u8,
}

/// An error while parsing a CIDR address
#[derive(Clone, Copy, Debug, PartialEq, Eq, Structural, Hash)]
pub enum InvalidCIDRError {
    /// The address is missing
    MissingAddress,
    /// The prefix is missing
    MissingPrefix,
    /// The address could not be parsed
    AddressParseError(AddressParseError),
    /// The prefix could not be parsed
    PrefixParseError(IntegerParseError),
    /// The prefix is invalid
    InvalidPrefix(InvalidPrefixError),
    /// There is more data beyond the prefix
    ExtraContent,
}

/// The lower-level error that an [`InvalidCIDRError`] wraps.
#[derive(Clone, Copy, Debug, PartialEq, Eq, Structural, Hash)]
pub enum InvalidCIDRSource {
    /// The address could not be parsed
    Address(AddressParseError),
    /// The prefix could not be parsed
    Prefix(IntegerParseError),
    /// The prefix is invalid
    InvalidPrefix(InvalidPrefixError),
}

impl AddressParseError {
    /// The message of the error.
    pub open spec fn message(&self) -> Seq<char> {
        match self {
            AddressParseError::IPv4 => "invalid IPv4 address syntax"@,
            AddressParseError::IPv6 => "invalid IPv6 address syntax"@,
            AddressParseError::IP => "invalid IP address syntax"@,
        }
    }

    /// Renders the message of the error.
    pub fn to_string(&self) -> (s: String)
        ensures
            s@ == self.message(),
    {
        match self {
            AddressParseError::IPv4 => String::from_str("invalid IPv4 address syntax"),
            AddressParseError::IPv6 => String::from_str("invalid IPv6 address syntax"),
            AddressParseError::IP => String::from_str("invalid IP address syntax"),
        }
    }
}

impl InvalidPrefixError {
    /// The message of the error: `invalid prefix`, a space and the prefix in
    /// decimal.
    pub open spec fn message(&self) -> Seq<char> {
        "invalid prefix "@ + dec_text(self.prefix as nat)
    }

    /// Renders the message of the error.
    pub fn to_string(&self) -> (s: String)
        ensures
            s@ == self.message(),
    {
        let mut digits: Vec<char> = Vec::new();
        push_dec_u8(&mut digits, self.prefix);
        assert(digits@ =~= dec_text(self.prefix as nat));
        let number = string_of(digits.as_slice());
        let mut s = String::from_str("invalid prefix ");
        s.append(number.as_str());
        s
    }
}

impl InvalidCIDRError {
    /// The message of the error. A wrapped address or prefix-range error
    /// shows through unchanged; a wrapped integer-parse error follows
    /// `invalid prefix - `.
    pub open spec fn message(&self) -> Seq<char> {
        match self {
            InvalidCIDRError::MissingAddress => "missing address"@,
            InvalidCIDRError::MissingPrefix => "missing prefix"@,
            InvalidCIDRError::AddressParseError(error) => error.message(),
            InvalidCIDRError::PrefixParseError(error) => "invalid prefix - "@
                + error.message(),
            InvalidCIDRError::InvalidPrefix(error) => error.message(),
            InvalidCIDRError::ExtraContent => "data beyond prefix"@,
        }
    }

    /// Renders the message of the error.
    pub fn to_string(&self) -> (s: String)
        ensures
            s@ == self.message(),
    {
        match self {
            InvalidCIDRError::MissingAddress => String::from_str("missing address"),
            InvalidCIDRError::MissingPrefix => String::from_str("missing prefix"),
            InvalidCIDRError::AddressParseError(error) => error.to_string(),
            InvalidCIDRError::PrefixParseError(error) => {
                let detail = error.to_string();
                let mut s = String::from_str("invalid prefix - ");
                s.append(detail.as_str());
                s
            },
            InvalidCIDRError::InvalidPrefix(error) => error.to_string(),
            InvalidCIDRError::ExtraContent => String::from_str("data beyond prefix"),
        }
    }

    /// The lower-level error that this error wraps, if it wraps one.
    pub fn source(&self) -> (r: Option<InvalidCIDRSource>)
        ensures
            r == match *self {
                InvalidCIDRError::AddressParseError(error) => Some(
                    InvalidCIDRSource::Address(error),
                ),
                InvalidCIDRError::PrefixParseError(error) => Some(InvalidCIDRSource::Prefix(error)),
                InvalidCIDRError::InvalidPrefix(error) => Some(
                    InvalidCIDRSource::InvalidPrefix(error),
                ),
                InvalidCIDRError::MissingAddress
                | InvalidCIDRError::MissingPrefix
                | InvalidCIDRError::ExtraContent => None,
            },
    {
        match self {
            InvalidCIDRError::AddressParseError(error) => Some(InvalidCIDRSource::Address(*error)),
            InvalidCIDRError::PrefixParseError(error) => Some(InvalidCIDRSource::Prefix(*error)),
            InvalidCIDRError::InvalidPrefix(error) => Some(InvalidCIDRSource::InvalidPrefix(*error)),
            InvalidCIDRError::MissingAddress
            | InvalidCIDRError::MissingPrefix
            | InvalidCIDRError::ExtraContent => None,
        }
    }
}

} // verus!
