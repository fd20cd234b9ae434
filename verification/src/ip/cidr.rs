//! CIDR blocks of either family.

use crate::ip::address::IPAddress;
use crate::ip::error::AddressParseError;
use crate::ip::error::InvalidCIDRError;
use crate::ip::notation::lemma_notation_fields;
use crate::ip::notation::parse_prefix;
use crate::ip::notation::prefix_of;
use crate::ip::v4::cidr::IPv4CIDR;
use crate::ip::v6::cidr::IPv6CIDR;
use crate::text::chars::chars_of;
use crate::text::fields::lemma_split_len;
use crate::text::fields::split;
use crate::text::fields::split_fields;
use std::cmp::Ordering;
use vstd::prelude::*;
use vstd::std_specs::cmp::PartialEqSpec;

verus! {

/// An IP Classless Inter-Domain Routing (CIDR) address
#[derive(Clone, Copy, Debug, Eq, Hash)]
pub enum IPCIDR {
    /// An IPv4 CIDR
    V4(IPv4CIDR),
    /// An IPv6 CIDR
    V6(IPv6CIDR),
}

impl IPCIDR {
    /// Whether the contained CIDR is valid for its family.
    pub open spec fn is_valid(&self) -> bool {
        match self {
            IPCIDR::V4(cidr) => cidr.is_valid(),
            IPCIDR::V6(cidr) => cidr.is_valid(),
        }
    }

    /// The address of the CIDR.
    pub open spec fn spec_address(&self) -> IPAddress {
        match self {
            IPCIDR::V4(cidr) => IPAddress::V4(cidr.address()),
            IPCIDR::V6(cidr) => IPAddress::V6(cidr.address()),
        }
    }

    /// The subnet prefix length of the CIDR.
    pub open spec fn spec_prefix(&self) -> u8 {
        match self {
            IPCIDR::V4(cidr) => cidr.prefix(),
            IPCIDR::V6(cidr) => cidr.prefix(),
        }
    }

    /// The canonical text of the CIDR, which is that of the contained CIDR:
    /// nothing marks the family but the syntax of the address.
    pub open spec fn text(&self) -> Seq<char> {
        match self {
            IPCIDR::V4(cidr) => cidr.text(),
            IPCIDR::V6(cidr) => cidr.text(),
        }
    }

    /// What the text `s` denotes. An empty text has no address. Otherwise
    /// the text falls into fields at each slash: the first must be an
    /// address of either family, the second must be there and be a prefix
    /// length, no third may follow, and the prefix must be within the bound
    /// of the family that the address has: 32 for IPv4, 128 for IPv6. The
    /// first of these that fails, in this order, gives the error.
    pub open spec fn parse_text(s: Seq<char>) -> Result<IPCIDR, InvalidCIDRError> {
        if s.len() == 0 {
            Err(InvalidCIDRError::MissingAddress)
        } else {
            let fields = split(s, '/');
            match IPAddress::parse_text(fields[0]) {
                None => Err(InvalidCIDRError::AddressParseError(AddressParseError::IP)),
                Some(address) => match prefix_of(fields) {
                    Err(error) => Err(error),
                    Ok(prefix) => match address {
                        IPAddress::V4(address) => match IPv4CIDR::try_of(address, prefix) {
                            Err(error) => Err(InvalidCIDRError::InvalidPrefix(error)),
                            Ok(cidr) => Ok(IPCIDR::V4(cidr)),
                        },
                        IPAddress::V6(address) => match IPv6CIDR::try_of(address, prefix) {
                            Err(error) => Err(InvalidCIDRError::InvalidPrefix(error)),
                            Ok(cidr) => Ok(IPCIDR::V6(cidr)),
                        },
                    },
                },
            }
        }
    }

    /// Gets the address of this CIDR
    #[verifier::when_used_as_spec(spec_address)]
    pub fn address(&self) -> (address: IPAddress)
        ensures
            address == self.address(),
    {
        match self {
            IPCIDR::V4(cidr) => IPAddress::V4(cidr.address()),
            IPCIDR::V6(cidr) => IPAddress::V6(cidr.address()),
        }
    }

    /// Gets the subnet prefix length of this CIDR
    #[verifier::when_used_as_spec(spec_prefix)]
    pub fn prefix(&self) -> (prefix: u8)
        ensures
            prefix == self.prefix(),
            self.is_valid(),
    {
        match self {
            IPCIDR::V4(cidr) => cidr.prefix(),
            IPCIDR::V6(cidr) => cidr.prefix(),
        }
    }

    /// Renders the CIDR in its canonical text.
    pub fn to_string(&self) -> (s: String)
        ensures
            s@ == self.text(),
    {
        match self {
            IPCIDR::V4(cidr) => cidr.to_string(),
            IPCIDR::V6(cidr) => cidr.to_string(),
        }
    }

    /// Reads the characters `s` as a CIDR of either family.
    pub fn parse_chars(s: &[char]) -> (r: Result<IPCIDR, InvalidCIDRError>)
        ensures
            r == Self::parse_text(s@),
    {
        if s.len() == 0 {
            return Err(InvalidCIDRError::MissingAddress);
        }
        let fields = split_fields(s, '/');
        proof {
            lemma_split_len(s@, '/');
        }
        let address = match IPAddress::parse_chars(fields[0]) {
            None => {
                return Err(InvalidCIDRError::AddressParseError(AddressParseError::IP));
            },
            Some(address) => address,
        };
        let prefix = match parse_prefix(&fields) {
            Err(error) => {
                return Err(error);
            },
            Ok(prefix) => prefix,
        };
        match address {
            IPAddress::V4(address) => match IPv4CIDR::try_new(address, prefix) {
                Err(error) => Err(InvalidCIDRError::InvalidPrefix(error)),
                Ok(cidr) => Ok(IPCIDR::V4(cidr)),
            },
            IPAddress::V6(address) => match IPv6CIDR::try_new(address, prefix) {
                Err(error) => Err(InvalidCIDRError::InvalidPrefix(error)),
                Ok(cidr) => Ok(IPCIDR::V6(cidr)),
            },
        }
    }

    /// Reads `s` as a CIDR of either family: an address, a slash, and a
    /// prefix length in decimal that is within the bound of the family.
    pub fn parse(s: &str) -> (r: Result<IPCIDR, InvalidCIDRError>)
        ensures
            r == Self::parse_text(s@),
    {
        let chars = chars_of(s);
        Self::parse_chars(chars.as_slice())
    }

    /// A CIDR that a text denotes is valid for its family, and its canonical
    /// text denotes it too.
    pub proof fn lemma_parsed_valid(s: Seq<char>)
        requires
            Self::parse_text(s) is Ok,
        ensures
            Self::parse_text(s)->Ok_0.is_valid(),
            Self::parse_text(Self::parse_text(s)->Ok_0.text()) == Self::parse_text(s),
    {
        broadcast use {IPv4CIDR::lemma_parts, IPv6CIDR::lemma_parts};

        Self::lemma_parse_text(Self::parse_text(s)->Ok_0);
    }

    /// Parsing the canonical text of a valid CIDR gives the CIDR back, in
    /// its family.
    pub proof fn lemma_parse_text(c: IPCIDR)
        requires
            c.is_valid(),
        ensures
            Self::parse_text(c.text()) == Ok::<IPCIDR, InvalidCIDRError>(c),
    {
        let address = c.address();
        IPAddress::lemma_text_free(address);
        IPAddress::lemma_parse_text(address);
        lemma_notation_fields(address.text(), c.prefix());
        match c {
            IPCIDR::V4(cidr) => IPv4CIDR::lemma_whole(cidr),
            IPCIDR::V6(cidr) => IPv6CIDR::lemma_whole(cidr),
        }
    }
}

impl std::str::FromStr for IPCIDR {
    type Err = InvalidCIDRError;

    fn from_str(s: &str) -> (r: Result<Self, Self::Err>)
        ensures
            r == Self::parse_text(s@),
    {
        IPCIDR::parse(s)
    }
}

impl From<IPv4CIDR> for IPCIDR {
    fn from(cidr: IPv4CIDR) -> (r: IPCIDR) {
        IPCIDR::V4(cidr)
    }
}

impl vstd::std_specs::convert::FromSpecImpl<IPv4CIDR> for IPCIDR {
    open spec fn obeys_from_spec() -> bool {
        true
    }

    open spec fn from_spec(cidr: IPv4CIDR) -> IPCIDR {
        IPCIDR::V4(cidr)
    }
}

impl From<IPv6CIDR> for IPCIDR {
    fn from(cidr: IPv6CIDR) -> (r: IPCIDR) {
        IPCIDR::V6(cidr)
    }
}

impl vstd::std_specs::convert::FromSpecImpl<IPv6CIDR> for IPCIDR {
    open spec fn obeys_from_spec() -> bool {
        true
    }

    open spec fn from_spec(cidr: IPv6CIDR) -> IPCIDR {
        IPCIDR::V6(cidr)
    }
}

impl PartialEq for IPCIDR {
    fn eq(&self, other: &Self) -> (r: bool) {
        match (self, other) {
            (IPCIDR::V4(a), IPCIDR::V4(b)) => a == b,
            (IPCIDR::V6(a), IPCIDR::V6(b)) => a == b,
            _ => false,
        }
    }
}

impl vstd::std_specs::cmp::PartialEqSpecImpl for IPCIDR {
    open spec fn obeys_eq_spec() -> bool {
        true
    }

    /// Two CIDRs are equal where they are of one family and the contained
    /// CIDRs are equal, in address and prefix.
    open spec fn eq_spec(&self, other: &Self) -> bool {
        *self == *other
    }
}

impl PartialEq<IPv4CIDR> for IPCIDR {
    fn eq(&self, other: &IPv4CIDR) -> (r: bool) {
        match self {
            IPCIDR::V4(cidr) => cidr.eq(other),
            IPCIDR::V6(_) => false,
        }
    }
}

impl vstd::std_specs::cmp::PartialEqSpecImpl<IPv4CIDR> for IPCIDR {
    open spec fn obeys_eq_spec() -> bool {
        true
    }

    /// A CIDR equals an IPv4 CIDR where it holds that IPv4 CIDR.
    open spec fn eq_spec(&self, other: &IPv4CIDR) -> bool {
        *self == IPCIDR::V4(*other)
    }
}

impl PartialEq<IPv6CIDR> for IPCIDR {
    fn eq(&self, other: &IPv6CIDR) -> (r: bool) {
        match self {
            IPCIDR::V4(_) => false,
            IPCIDR::V6(cidr) => cidr.eq(other),
        }
    }
}

impl vstd::std_specs::cmp::PartialEqSpecImpl<IPv6CIDR> for IPCIDR {
    open spec fn obeys_eq_spec() -> bool {
        true
    }

    /// A CIDR equals an IPv6 CIDR where it holds that IPv6 CIDR.
    open spec fn eq_spec(&self, other: &IPv6CIDR) -> bool {
        *self == IPCIDR::V6(*other)
    }
}

impl IPCIDR {
    /// How `self` stands to `other` in the order of CIDRs: an IPv4 CIDR
    /// comes before every IPv6 CIDR, and two CIDRs of one family stand as
    /// their addresses do.
    pub open spec fn order(&self, other: &IPCIDR) -> Ordering {
        match *self {
            IPCIDR::V4(cidr) => cidr.order_ip(other),
            IPCIDR::V6(cidr) => cidr.order_ip(other),
        }
    }

    /// How `self` stands to the IPv4 CIDR `other`.
    pub open spec fn order_v4(&self, other: &IPv4CIDR) -> Ordering {
        self.order(&IPCIDR::V4(*other))
    }

    /// How `self` stands to the IPv6 CIDR `other`.
    pub open spec fn order_v6(&self, other: &IPv6CIDR) -> Ordering {
        self.order(&IPCIDR::V6(*other))
    }

    /// Compares two CIDRs, by family first and by address second.
    pub fn compare(&self, other: &IPCIDR) -> (r: Ordering)
        ensures
            r == self.order(other),
    {
        match (self, other) {
            (IPCIDR::V4(a), IPCIDR::V4(b)) => a.compare(b),
            (IPCIDR::V4(_), IPCIDR::V6(_)) => Ordering::Less,
            (IPCIDR::V6(_), IPCIDR::V4(_)) => Ordering::Greater,
            (IPCIDR::V6(a), IPCIDR::V6(b)) => a.compare(b),
        }
    }
}

impl PartialOrd for IPCIDR {
    fn partial_cmp(&self, other: &Self) -> (r: Option<Ordering>) {
        Some(self.compare(other))
    }
}

impl vstd::std_specs::cmp::PartialOrdSpecImpl for IPCIDR {
    open spec fn obeys_partial_cmp_spec() -> bool {
        true
    }

    open spec fn partial_cmp_spec(&self, other: &Self) -> Option<Ordering> {
        Some(self.order(other))
    }
}

impl PartialOrd<IPv4CIDR> for IPCIDR {
    fn partial_cmp(&self, other: &IPv4CIDR) -> (r: Option<Ordering>) {
        match self {
            IPCIDR::V4(cidr) => Some(cidr.compare(other)),
            IPCIDR::V6(_) => Some(Ordering::Greater),
        }
    }
}

impl vstd::std_specs::cmp::PartialOrdSpecImpl<IPv4CIDR> for IPCIDR {
    open spec fn obeys_partial_cmp_spec() -> bool {
        true
    }

    open spec fn partial_cmp_spec(&self, other: &IPv4CIDR) -> Option<Ordering> {
        Some(self.order_v4(other))
    }
}

impl PartialOrd<IPv6CIDR> for IPCIDR {
    fn partial_cmp(&self, other: &IPv6CIDR) -> (r: Option<Ordering>) {
        match self {
            IPCIDR::V4(_) => Some(Ordering::Less),
            IPCIDR::V6(cidr) => Some(cidr.compare(other)),
        }
    }
}

impl vstd::std_specs::cmp::PartialOrdSpecImpl<IPv6CIDR> for IPCIDR {
    open spec fn obeys_partial_cmp_spec() -> bool {
        true
    }

    open spec fn partial_cmp_spec(&self, other: &IPv6CIDR) -> Option<Ordering> {
        Some(self.order_v6(other))
    }
}

/// The ordering with its two sides exchanged.
pub open spec fn reversed(ordering: Ordering) -> Ordering {
    match ordering {
        Ordering::Less => Ordering::Greater,
        Ordering::Equal => Ordering::Equal,
        Ordering::Greater => Ordering::Less,
    }
}

impl IPCIDR {
    /// An IPv4 CIDR comes before every IPv6 CIDR, whatever their addresses
    /// and prefixes, in each direction in which the two can be compared:
    /// both wrapped, either one wrapped and the other bare.
    pub proof fn lemma_family_precedence(u: IPv4CIDR, v: IPv6CIDR)
        ensures
            IPCIDR::V4(u).order(&IPCIDR::V6(v)) == Ordering::Less,
            IPCIDR::V6(v).order(&IPCIDR::V4(u)) == Ordering::Greater,
            IPCIDR::V4(u).order_v6(&v) == Ordering::Less,
            IPCIDR::V6(v).order_v4(&u) == Ordering::Greater,
            u.order_ip(&IPCIDR::V6(v)) == Ordering::Less,
            v.order_ip(&IPCIDR::V4(u)) == Ordering::Greater,
    {
    }

    /// A CIDR of one family never equals a CIDR of the other, wrapped or
    /// bare, on either side of the comparison.
    pub proof fn lemma_cross_family_unequal(u: IPv4CIDR, v: IPv6CIDR)
        ensures
            IPCIDR::V4(u) != IPCIDR::V6(v),
            !PartialEqSpec::eq_spec(&IPCIDR::V4(u), &IPCIDR::V6(v)),
            !PartialEqSpec::eq_spec(&IPCIDR::V6(v), &IPCIDR::V4(u)),
            !PartialEqSpec::eq_spec(&IPCIDR::V4(u), &v),
            !PartialEqSpec::eq_spec(&IPCIDR::V6(v), &u),
            !PartialEqSpec::eq_spec(&u, &IPCIDR::V6(v)),
            !PartialEqSpec::eq_spec(&v, &IPCIDR::V4(u)),
    {
    }

    /// A bare CIDR compares with a CIDR of either family as if it were
    /// wrapped, in equality and in order, on either side.
    pub proof fn lemma_bare_as_wrapped(c: IPCIDR, u: IPv4CIDR, v: IPv6CIDR)
        ensures
            PartialEqSpec::eq_spec(&c, &u) == (c == IPCIDR::V4(u)),
            PartialEqSpec::eq_spec(&u, &c) == (c == IPCIDR::V4(u)),
            PartialEqSpec::eq_spec(&c, &v) == (c == IPCIDR::V6(v)),
            PartialEqSpec::eq_spec(&v, &c) == (c == IPCIDR::V6(v)),
            c.order_v4(&u) == c.order(&IPCIDR::V4(u)),
            u.order_ip(&c) == IPCIDR::V4(u).order(&c),
            c.order_v6(&v) == c.order(&IPCIDR::V6(v)),
            v.order_ip(&c) == IPCIDR::V6(v).order(&c),
    {
    }

    /// Exchanging the two sides of a comparison reverses its result.
    pub proof fn lemma_order_reverses(a: IPCIDR, b: IPCIDR)
        ensures
            b.order(&a) == reversed(a.order(&b)),
    {
    }

    /// The order of CIDRs is transitive: where `a` comes no later than `b`,
    /// and `b` no later than `c`, `a` comes no later than `c`; and `a` comes
    /// before `c` where one of the two steps is strict.
    pub proof fn lemma_order_transitive(a: IPCIDR, b: IPCIDR, c: IPCIDR)
        requires
            a.order(&b) != Ordering::Greater,
            b.order(&c) != Ordering::Greater,
        ensures
            a.order(&c) != Ordering::Greater,
            a.order(&b) == Ordering::Less || b.order(&c) == Ordering::Less ==> a.order(&c)
                == Ordering::Less,
    {
    }
}

} // verus!
