//! IPv6 CIDR blocks: an address with a prefix length of at most 128.

use crate::ip::cidr::IPCIDR;
use crate::ip::error::AddressParseError;
use crate::ip::error::InvalidCIDRError;
use crate::ip::error::InvalidPrefixError;
use crate::ip::notation::lemma_notation_fields;
use crate::ip::notation::notation;
use crate::ip::notation::parse_prefix;
use crate::ip::notation::prefix_of;
use crate::ip::notation::push_prefix;
use crate::ip::v6::address::IPv6Address;
use crate::text::chars::chars_of;
use crate::text::chars::string_of;
use crate::text::fields::lemma_split_len;
use crate::text::fields::split;
use crate::text::fields::split_fields;
use std::cmp::Ordering;
use vstd::prelude::*;

verus! {

/// An IPv6 Classless Inter-Domain Routing (CIDR) address
#[derive(Clone, Copy, Debug, Eq, Hash)]
pub struct IPv6CIDR {
    address: IPv6Address,
    prefix: u8,
}

impl IPv6CIDR {
    #[verifier::type_invariant]
    spec fn well_formed(&self) -> bool {
        self.prefix <= 128
    }

    /// The address of the CIDR.
    pub closed spec fn spec_address(&self) -> IPv6Address {
        self.address
    }

    /// The subnet prefix length of the CIDR.
    pub closed spec fn spec_prefix(&self) -> u8 {
        self.prefix
    }

    /// The CIDR made of `address` and `prefix`.
    pub closed spec fn of(address: IPv6Address, prefix: u8) -> IPv6CIDR {
        IPv6CIDR { address, prefix }
    }

    /// Whether the prefix length is at most 128. Every value that this
    /// library hands out is valid.
    pub open spec fn is_valid(&self) -> bool {
        self.prefix() <= 128
    }

    /// A CIDR is its address and its prefix, and nothing else.
    pub broadcast proof fn lemma_parts(address: IPv6Address, prefix: u8)
        ensures
            (#[trigger] Self::of(address, prefix)).address() == address,
            Self::of(address, prefix).prefix() == prefix,
    {
    }

    /// Two CIDRs with the same address and the same prefix are the same.
    pub proof fn lemma_whole(c: IPv6CIDR)
        ensures
            Self::of(c.address(), c.prefix()) == c,
    {
    }

    /// Creates a new [`IPv6CIDR`]
    ///
    /// ## Parameters
    ///  * `address` - The address for the CIDR address
    ///  * `prefix` - The subnet prefix length, must be 128 or less
    ///
    /// ## Return Value
    /// Returns the newly created [`IPv6CIDR`]
    pub fn new(address: IPv6Address, prefix: u8) -> (r: Self)
        requires
            prefix <= 128,
        ensures
            r == Self::of(address, prefix),
            r.address() == address,
            r.prefix() == prefix,
    {
        IPv6CIDR::new_unchecked(address, prefix)
    }

    /// Attempts to create a new [`IPv6CIDR`]
    ///
    /// ## Parameters
    ///  * `address` - The address for the CIDR address
    ///  * `prefix` - The subnet prefix length
    ///
    /// ## Return Value
    /// Returns the newly created [`IPv6CIDR`] if the prefix passed is 128 or
    /// less, and the prefix in an [`InvalidPrefixError`] otherwise.
    pub fn try_new(address: IPv6Address, prefix: u8) -> (r: Result<Self, InvalidPrefixError>)
        ensures
            r == Self::try_of(address, prefix),
    {
        if prefix > 128 {
            Err(InvalidPrefixError { prefix })
        } else {
            Ok(IPv6CIDR::new_unchecked(address, prefix))
        }
    }

    /// What [`IPv6CIDR::try_new`] returns: the CIDR where `prefix` is 128 or
    /// less, and `prefix` in an error otherwise.
    pub open spec fn try_of(address: IPv6Address, prefix: u8) -> Result<
        IPv6CIDR,
        InvalidPrefixError,
    > {
        if prefix <= 128 {
            Ok(Self::of(address, prefix))
        } else {
            Err(InvalidPrefixError { prefix })
        }
    }

    /// Creates a new [`IPv6CIDR`] without checking the prefix
    ///
    /// ## Parameters
    ///  * `address` - The address for the CIDR address
    ///  * `prefix` - The subnet prefix length, must be 128 or less
    ///
    /// ## Return Value
    /// Returns the newly created [`IPv6CIDR`]
    pub fn new_unchecked(address: IPv6Address, prefix: u8) -> (r: Self)
        requires
            prefix <= 128,
        ensures
            r == Self::of(address, prefix),
            r.address() == address,
            r.prefix() == prefix,
    {
        IPv6CIDR { address, prefix }
    }

    /// Gets the address of this CIDR
    ///
    /// ## Return Value
    /// Returns the address of this CIDR
    #[verifier::when_used_as_spec(spec_address)]
    pub fn address(&self) -> (address: IPv6Address)
        ensures
            address == self.address(),
    {
        self.address
    }

    /// Gets the subnet prefix length of this CIDR
    ///
    /// ## Return Value
    /// Returns the subnet prefix length of this CIDR, which is 128 or less
    #[verifier::when_used_as_spec(spec_prefix)]
    pub fn prefix(&self) -> (prefix: u8)
        ensures
            prefix == self.prefix(),
            self.is_valid(),
    {
        proof {
            use_type_invariant(self);
        }
        self.prefix
    }

    /// Sets the address for this CIDR
    ///
    /// ## Parameters
    ///  * `address` - The new address
    pub fn set_address(&mut self, address: IPv6Address)
        ensures
            *final(self) == Self::of(address, old(self).prefix()),
            final(self).address() == address,
            final(self).prefix() == old(self).prefix(),
    {
        proof {
            use_type_invariant(&*self);
        }
        self.address = address;
    }

    /// Sets the prefix for this CIDR
    ///
    /// ## Parameters
    ///  * `prefix` - The new prefix, must be 128 or less
    pub fn set_prefix(&mut self, prefix: u8)
        requires
            prefix <= 128,
        ensures
            *final(self) == Self::of(old(self).address(), prefix),
            final(self).address() == old(self).address(),
            final(self).prefix() == prefix,
    {
        self.prefix = prefix;
    }
}

impl IPv6CIDR {
    /// The canonical text of the CIDR: the text of its address, a slash,
    /// and its prefix in decimal.
    pub open spec fn text(&self) -> Seq<char> {
        notation(self.address().text(), self.prefix())
    }

    /// What the text `s` denotes. An empty text has no address. Otherwise
    /// the text falls into fields at each slash: the first must be an IPv6
    /// address, the second must be there and be a prefix length, no third
    /// may follow, and the prefix must be 128 or less. The first of these
    /// that fails, in this order, gives the error.
    pub open spec fn parse_text(s: Seq<char>) -> Result<IPv6CIDR, InvalidCIDRError> {
        if s.len() == 0 {
            Err(InvalidCIDRError::MissingAddress)
        } else {
            let fields = split(s, '/');
            match IPv6Address::parse_text(fields[0]) {
                None => Err(InvalidCIDRError::AddressParseError(AddressParseError::IPv6)),
                Some(address) => match prefix_of(fields) {
                    Err(error) => Err(error),
                    Ok(prefix) => match Self::try_of(address, prefix) {
                        Err(error) => Err(InvalidCIDRError::InvalidPrefix(error)),
                        Ok(cidr) => Ok(cidr),
                    },
                },
            }
        }
    }

    /// Renders the CIDR in its canonical text.
    pub fn to_string(&self) -> (s: String)
        ensures
            s@ == self.text(),
    {
        let mut out: Vec<char> = Vec::new();
        self.address.push_text(&mut out);
        assert(out@ =~= self.address.text());
        push_prefix(&mut out, self.prefix);
        string_of(out.as_slice())
    }

    /// Reads the characters `s` as a CIDR.
    pub fn parse_chars(s: &[char]) -> (r: Result<IPv6CIDR, InvalidCIDRError>)
        ensures
            r == Self::parse_text(s@),
    {
        if s.len() == 0 {
            return Err(InvalidCIDRError::MissingAddress);
        }
        let fields = split_fields(s, '/');
        proof {
            lemma_split_len(s@, '/');
        }
        let address = match IPv6Address::parse_chars(fields[0]) {
            None => {
                return Err(InvalidCIDRError::AddressParseError(AddressParseError::IPv6));
            },
            Some(address) => address,
        };
        let prefix = match parse_prefix(&fields) {
            Err(error) => {
                return Err(error);
            },
            Ok(prefix) => prefix,
        };
        match IPv6CIDR::try_new(address, prefix) {
            Err(error) => Err(InvalidCIDRError::InvalidPrefix(error)),
            Ok(cidr) => Ok(cidr),
        }
    }

    /// Reads `s` as a CIDR: an IPv6 address, a slash, and a prefix length of
    /// 128 or less in decimal.
    pub fn parse(s: &str) -> (r: Result<IPv6CIDR, InvalidCIDRError>)
        ensures
            r == Self::parse_text(s@),
    {
        let chars = chars_of(s);
        Self::parse_chars(chars.as_slice())
    }

    /// A CIDR that a text denotes is valid, and its canonical text denotes
    /// it too.
    pub proof fn lemma_parsed_valid(s: Seq<char>)
        requires
            Self::parse_text(s) is Ok,
        ensures
            Self::parse_text(s)->Ok_0.is_valid(),
            Self::parse_text(Self::parse_text(s)->Ok_0.text()) == Self::parse_text(s),
    {
        broadcast use IPv6CIDR::lemma_parts;

        Self::lemma_parse_text(Self::parse_text(s)->Ok_0);
    }

    /// Parsing the canonical text of a valid CIDR gives the CIDR back.
    pub proof fn lemma_parse_text(c: IPv6CIDR)
        requires
            c.is_valid(),
        ensures
            Self::parse_text(c.text()) == Ok::<IPv6CIDR, InvalidCIDRError>(c),
    {
        IPv6Address::lemma_text_free(c.address());
        IPv6Address::lemma_parse_text(c.address());
        lemma_notation_fields(c.address().text(), c.prefix());
        Self::lemma_whole(c);
    }
}

impl std::str::FromStr for IPv6CIDR {
    type Err = InvalidCIDRError;

    fn from_str(s: &str) -> (r: Result<Self, Self::Err>)
        ensures
            r == Self::parse_text(s@),
    {
        IPv6CIDR::parse(s)
    }
}

impl PartialEq for IPv6CIDR {
    fn eq(&self, other: &Self) -> (r: bool) {
        self.address == other.address && self.prefix == other.prefix
    }
}

impl vstd::std_specs::cmp::PartialEqSpecImpl for IPv6CIDR {
    open spec fn obeys_eq_spec() -> bool {
        true
    }

    open spec fn eq_spec(&self, other: &Self) -> bool {
        *self == *other
    }
}

impl IPv6CIDR {
    /// How `self` stands to `other` in the order of CIDRs, which is the
    /// order of their addresses: the prefix plays no part in it.
    pub open spec fn order(&self, other: &Self) -> Ordering {
        self.address().order(&other.address())
    }

    /// Two CIDRs with the same address are ordered as equal, whatever their
    /// prefixes, though they are equal only where their prefixes are too.
    pub proof fn lemma_order_ignores_prefix(a: IPv6CIDR, b: IPv6CIDR)
        requires
            a.address() == b.address(),
        ensures
            a.order(&b) == Ordering::Equal,
            a == b <==> a.prefix() == b.prefix(),
    {
    }

    /// Two CIDRs are ordered as equal exactly where their addresses are
    /// equal.
    pub proof fn lemma_order_equal(a: IPv6CIDR, b: IPv6CIDR)
        ensures
            a.order(&b) == Ordering::Equal <==> a.address() == b.address(),
    {
        IPv6Address::lemma_order_equal(a.address(), b.address());
    }

    /// Compares two CIDRs by their addresses alone.
    pub fn compare(&self, other: &Self) -> (r: Ordering)
        ensures
            r == self.order(other),
    {
        self.address.compare(&other.address)
    }
}

impl PartialOrd for IPv6CIDR {
    fn partial_cmp(&self, other: &Self) -> (r: Option<Ordering>) {
        Some(self.compare(other))
    }
}

impl vstd::std_specs::cmp::PartialOrdSpecImpl for IPv6CIDR {
    open spec fn obeys_partial_cmp_spec() -> bool {
        true
    }

    open spec fn partial_cmp_spec(&self, other: &Self) -> Option<Ordering> {
        Some(self.order(other))
    }
}

impl PartialEq<IPCIDR> for IPv6CIDR {
    fn eq(&self, other: &IPCIDR) -> (r: bool) {
        match other {
            IPCIDR::V4(_) => false,
            IPCIDR::V6(other) => self.eq(other),
        }
    }
}

impl vstd::std_specs::cmp::PartialEqSpecImpl<IPCIDR> for IPv6CIDR {
    open spec fn obeys_eq_spec() -> bool {
        true
    }

    /// An IPv6 CIDR equals a CIDR of either family where that CIDR
    /// holds it.
    open spec fn eq_spec(&self, other: &IPCIDR) -> bool {
        IPCIDR::V6(*self) == *other
    }
}

impl IPv6CIDR {
    /// How `self` stands to a CIDR of either family: to an IPv6 CIDR as
    /// their addresses stand, and it comes after every IPv4 CIDR.
    pub open spec fn order_ip(&self, other: &IPCIDR) -> Ordering {
        match *other {
            IPCIDR::V4(_) => Ordering::Greater,
            IPCIDR::V6(other) => self.order(&other),
        }
    }
}

impl PartialOrd<IPCIDR> for IPv6CIDR {
    fn partial_cmp(&self, other: &IPCIDR) -> (r: Option<Ordering>) {
        match other {
            IPCIDR::V4(_) => Some(Ordering::Greater),
            IPCIDR::V6(other) => Some(self.compare(other)),
        }
    }
}

impl vstd::std_specs::cmp::PartialOrdSpecImpl<IPCIDR> for IPv6CIDR {
    open spec fn obeys_partial_cmp_spec() -> bool {
        true
    }

    open spec fn partial_cmp_spec(&self, other: &IPCIDR) -> Option<Ordering> {
        Some(self.order_ip(other))
    }
}

impl From<IPv6Address> for IPv6CIDR {
    fn from(address: IPv6Address) -> (r: IPv6CIDR) {
        IPv6CIDR::new(address, 128)
    }
}

impl vstd::std_specs::convert::FromSpecImpl<IPv6Address> for IPv6CIDR {
    open spec fn obeys_from_spec() -> bool {
        true
    }

    /// The CIDR of the single host `address`: its prefix is 128.
    open spec fn from_spec(address: IPv6Address) -> IPv6CIDR {
        IPv6CIDR::of(address, 128)
    }
}

impl From<IPv6CIDR> for IPv6Address {
    fn from(cidr: IPv6CIDR) -> (r: IPv6Address) {
        cidr.address
    }
}

impl vstd::std_specs::convert::FromSpecImpl<IPv6CIDR> for IPv6Address {
    open spec fn obeys_from_spec() -> bool {
        true
    }

    open spec fn from_spec(cidr: IPv6CIDR) -> IPv6Address {
        cidr.address()
    }
}

impl From<IPv6CIDR> for (IPv6Address, u8) {
    fn from(cidr: IPv6CIDR) -> (r: (IPv6Address, u8)) {
        (cidr.address, cidr.prefix)
    }
}

impl vstd::std_specs::convert::FromSpecImpl<IPv6CIDR> for (IPv6Address, u8) {
    open spec fn obeys_from_spec() -> bool {
        true
    }

    open spec fn from_spec(cidr: IPv6CIDR) -> (IPv6Address, u8) {
        (cidr.address(), cidr.prefix())
    }
}

impl<T: Into<IPv6Address>> TryFrom<(T, u8)> for IPv6CIDR {
    type Error = InvalidPrefixError;

    fn try_from(value: (T, u8)) -> (r: Result<Self, Self::Error>)
        ensures
            r is Ok <==> value.1 <= 128,
            r matches Err(error) ==> error.prefix == value.1,
            r matches Ok(cidr) ==> cidr.prefix() == value.1 && call_ensures(
                T::into,
                (value.0,),
                cidr.address(),
            ),
    {
        let address: IPv6Address = value.0.into();
        proof {
            Self::lemma_parts(address, value.1);
        }
        IPv6CIDR::try_new(address, value.1)
    }
}

impl<T: Into<IPv6Address>> vstd::std_specs::convert::TryFromSpecImpl<(T, u8)> for IPv6CIDR {
    open spec fn obeys_try_from_spec() -> bool {
        <T as vstd::std_specs::convert::IntoSpec<IPv6Address>>::obeys_into_spec()
    }

    open spec fn try_from_spec(value: (T, u8)) -> Result<Self, Self::Error> {
        IPv6CIDR::try_of(
            vstd::std_specs::convert::IntoSpec::<IPv6Address>::into_spec(value.0),
            value.1,
        )
    }
}

} // verus!
