//! MAC addresses and their text.

use crate::text::chars::chars_of;
use crate::text::chars::string_of;
use crate::text::digits::hex_digit_of;
use crate::text::digits::hex_digit_upper;
use crate::text::digits::hex_digit_upper_char;
use crate::text::digits::hex_value;
use crate::text::digits::is_hex_text;
use crate::text::fields::is_free_of;
use crate::text::fields::join;
use crate::text::fields::lemma_join_push;
use crate::text::fields::lemma_split_join;
use crate::text::fields::split;
use crate::text::fields::split_fields;
use std::cmp::Ordering;
use vstd::prelude::*;
use vstd::string::StringExecFns;

verus! {

/// A media access control (MAC) address
#[derive(Clone, Copy, Debug, Eq, Ord, Hash)]
pub struct MACAddress {
    octets: [u8; 6],
}

/// An error occurred while parsing a MAC address
#[derive(Clone, Copy, Debug, PartialEq, Eq, Structural, Hash)]
pub struct InvalidMACAddress;

/// Whether `f` is one octet of a MAC address text: two hexadecimal digits.
pub open spec fn is_octet_text(f: Seq<char>) -> bool {
    f.len() == 2 && is_hex_text(f)
}

/// The text of the octet `o`: two upper-case hexadecimal digits.
pub open spec fn octet_text(o: u8) -> Seq<char> {
    seq![hex_digit_upper(o as nat / 16), hex_digit_upper(o as nat % 16)]
}

/// The texts of `octets`, in order.
pub open spec fn octet_texts(octets: Seq<u8>) -> Seq<Seq<char>> {
    Seq::new(octets.len(), |i: int| octet_text(octets[i]))
}

impl View for MACAddress {
    type V = Seq<u8>;

    closed spec fn view(&self) -> Seq<u8> {
        self.octets@
    }
}

impl MACAddress {
    /// The number of bits in a MAC address
    pub const BITS: usize = 48;

    /// The address whose octets are the six elements of `octets`.
    pub closed spec fn of(octets: Seq<u8>) -> MACAddress {
        MACAddress {
            octets: [octets[0], octets[1], octets[2], octets[3], octets[4], octets[5]],
        }
    }

    /// An address has six octets and is the address of its octets, and six
    /// octets are the octets of their address.
    pub proof fn lemma_of_view(a: MACAddress, octets: Seq<u8>)
        ensures
            a@.len() == 6,
            Self::of(a@) == a,
            octets.len() == 6 ==> Self::of(octets)@ == octets,
    {
        assert(Self::of(a@).octets =~= a.octets);
        if octets.len() == 6 {
            assert(Self::of(octets)@ =~= octets);
        }
    }

    /// The canonical text of the address: its six octets, each as two
    /// upper-case hexadecimal digits, with colons between them.
    pub open spec fn text(&self) -> Seq<char> {
        join(octet_texts(self@), ':')
    }

    /// The address that `s` denotes, if any: exactly six octet texts, in
    /// either case, with colons between them.
    pub open spec fn parse_text(s: Seq<char>) -> Option<MACAddress> {
        let f = split(s, ':');
        if f.len() == 6 && forall|i: int| 0 <= i < 6 ==> is_octet_text(#[trigger] f[i]) {
            Some(Self::of(Seq::new(6, |i: int| hex_value(f[i]) as u8)))
        } else {
            None
        }
    }

    /// Creates a new [`MACAddress`]
    ///
    /// ## Parameters
    ///  * `octets` - The octets which make up the address
    ///
    /// ## Return Value
    /// Returns the newly created [`MACAddress`]
    pub fn new(octets: [u8; 6]) -> (r: Self)
        ensures
            r@ == octets@,
    {
        MACAddress { octets }
    }

    /// The broadcast MAC address
    pub fn broadcast() -> (r: Self)
        ensures
            r@ == seq![0xFFu8, 0xFFu8, 0xFFu8, 0xFFu8, 0xFFu8, 0xFFu8],
    {
        let r = MACAddress::new([0xFF; 6]);
        assert(r@ =~= seq![0xFFu8, 0xFFu8, 0xFFu8, 0xFFu8, 0xFFu8, 0xFFu8]);
        r
    }

    /// An unspecified MAC address representation
    pub fn unspecified() -> (r: Self)
        ensures
            r@ == seq![0u8, 0u8, 0u8, 0u8, 0u8, 0u8],
    {
        let r = MACAddress::new([0; 6]);
        assert(r@ =~= seq![0u8, 0u8, 0u8, 0u8, 0u8, 0u8]);
        r
    }

    /// Gets the octets of this MAC address
    ///
    /// ## Return Value
    /// Returns the 6 octets that make up this MAC address
    pub fn octets(&self) -> (r: [u8; 6])
        ensures
            r@ == self@,
    {
        self.octets
    }

    /// Gets the octets of this MAC address as a slice
    pub fn as_slice(&self) -> (r: &[u8])
        ensures
            r@ == self@,
    {
        self.octets.as_slice()
    }

    /// Appends the canonical text of the address to `out`.
    pub fn push_text(&self, out: &mut Vec<char>)
        ensures
            final(out)@ == old(out)@ + self.text(),
    {
        let ghost before = out@;
        let mut i: usize = 0;
        proof {
            assert(octet_texts(self@.take(0)) =~= Seq::<Seq<char>>::empty());
            assert(out@ =~= before + Seq::<char>::empty());
        }
        while i < 6
            invariant
                0 <= i <= 6,
                out@ == before + join(octet_texts(self@.take(i as int)), ':'),
            decreases 6 - i,
        {
            let ghost listed = octet_texts(self@.take(i as int));
            let ghost text = octet_text(self@[i as int]);
            proof {
                lemma_join_push(listed, text, ':');
                assert(octet_texts(self@.take(i + 1)) =~= listed.push(text));
            }
            if i > 0 {
                out.push(':');
            }
            let octet = self.octets[i];
            out.push(hex_digit_upper_char(octet / 16));
            out.push(hex_digit_upper_char(octet % 16));
            proof {
                assert(out@ =~= before + join(listed.push(text), ':'));
            }
            i += 1;
        }
        proof {
            assert(self@.take(6) =~= self@);
        }
    }

    /// Renders the address in its canonical text.
    pub fn to_string(&self) -> (s: String)
        ensures
            s@ == self.text(),
    {
        let mut out: Vec<char> = Vec::new();
        self.push_text(&mut out);
        assert(out@ =~= self.text());
        string_of(out.as_slice())
    }

    /// Reads the characters `s` as an address.
    pub fn parse_chars(s: &[char]) -> (r: Option<MACAddress>)
        ensures
            r == Self::parse_text(s@),
    {
        let fields = split_fields(s, ':');
        if fields.len() != 6 {
            return None;
        }
        let ghost f = split(s@, ':');
        let mut octets: [u8; 6] = [0; 6];
        let mut i: usize = 0;
        while i < 6
            invariant
                0 <= i <= 6 == fields@.len(),
                f == split(s@, ':'),
                f.len() == 6,
                forall|k: int| 0 <= k < 6 ==> (#[trigger] fields@[k])@ == f[k],
                forall|k: int| 0 <= k < i ==> is_octet_text(#[trigger] f[k]),
                forall|k: int| 0 <= k < i ==> octets@[k] == hex_value(f[k]) as u8,
            decreases 6 - i,
        {
            match parse_octet(fields[i]) {
                None => {
                    assert(!is_octet_text(f[i as int]));
                    return None;
                },
                Some(octet) => {
                    octets[i] = octet;
                },
            }
            i += 1;
        }
        let r = MACAddress { octets };
        proof {
            let parsed = Seq::new(6, |i: int| hex_value(f[i]) as u8);
            assert(r@ =~= parsed);
            Self::lemma_of_view(r, parsed);
        }
        Some(r)
    }

    /// Reads `s` as an address: six octets of two hexadecimal digits each,
    /// with colons between them.
    pub fn parse(s: &str) -> (r: Result<MACAddress, InvalidMACAddress>)
        ensures
            r == match Self::parse_text(s@) {
                Some(a) => Ok::<MACAddress, InvalidMACAddress>(a),
                None => Err(InvalidMACAddress),
            },
    {
        let chars = chars_of(s);
        match Self::parse_chars(chars.as_slice()) {
            Some(a) => Ok(a),
            None => Err(InvalidMACAddress),
        }
    }

    /// The text of an octet is an octet text without a colon, and denotes
    /// the octet.
    pub proof fn lemma_octet_text(o: u8)
        ensures
            is_octet_text(octet_text(o)),
            is_free_of(octet_text(o), ':'),
            hex_value(octet_text(o)) == o,
    {
        let t = octet_text(o);
        reveal_with_fuel(hex_value, 3);
        assert(t.drop_last() =~= seq![t[0]]);
        assert(t.drop_last().drop_last() =~= Seq::<char>::empty());
    }

    /// Parsing the canonical text of an address gives the address back.
    pub proof fn lemma_parse_text(a: MACAddress)
        ensures
            Self::parse_text(a.text()) == Some(a),
    {
        let texts = octet_texts(a@);
        Self::lemma_of_view(a, a@);
        assert forall|i: int| 0 <= i < 6 implies is_octet_text(#[trigger] texts[i]) && is_free_of(
            texts[i],
            ':',
        ) && hex_value(texts[i]) as u8 == a@[i] by {
            Self::lemma_octet_text(a@[i]);
        }
        lemma_split_join(texts, ':');
        assert(Seq::new(6, |i: int| hex_value(texts[i]) as u8) =~= a@);
    }
}

/// Reads `f` as one octet of a MAC address text.
fn parse_octet(f: &[char]) -> (r: Option<u8>)
    ensures
        r is Some <==> is_octet_text(f@),
        r matches Some(o) ==> o as nat == hex_value(f@),
{
    if f.len() != 2 {
        return None;
    }
    let high = match hex_digit_of(f[0]) {
        None => {
            return None;
        },
        Some(d) => d,
    };
    let low = match hex_digit_of(f[1]) {
        None => {
            return None;
        },
        Some(d) => d,
    };
    proof {
        reveal_with_fuel(hex_value, 3);
        assert(f@.drop_last() =~= seq![f@[0]]);
        assert(f@.drop_last().drop_last() =~= Seq::<char>::empty());
    }
    Some(high * 16 + low)
}

impl InvalidMACAddress {
    /// The message of the error.
    pub open spec fn message(&self) -> Seq<char> {
        "invalid MAC address"@
    }

    /// Renders the message of the error.
    pub fn to_string(&self) -> (s: String)
        ensures
            s@ == self.message(),
    {
        String::from_str("invalid MAC address")
    }
}

impl PartialEq for MACAddress {
    fn eq(&self, other: &Self) -> (r: bool) {
        let mut i: usize = 0;
        while i < 6
            invariant
                0 <= i <= 6,
                forall|k: int| 0 <= k < i ==> self.octets[k] == other.octets[k],
            decreases 6 - i,
        {
            if self.octets[i] != other.octets[i] {
                return false;
            }
            i += 1;
        }
        proof {
            assert(self.octets =~= other.octets);
        }
        true
    }
}

impl vstd::std_specs::cmp::PartialEqSpecImpl for MACAddress {
    open spec fn obeys_eq_spec() -> bool {
        true
    }

    open spec fn eq_spec(&self, other: &Self) -> bool {
        *self == *other
    }
}

impl std::str::FromStr for MACAddress {
    type Err = InvalidMACAddress;

    fn from_str(s: &str) -> (r: Result<Self, Self::Err>)
        ensures
            r == match Self::parse_text(s@) {
                Some(a) => Ok::<MACAddress, InvalidMACAddress>(a),
                None => Err(InvalidMACAddress),
            },
    {
        MACAddress::parse(s)
    }
}

impl From<[u8; 6]> for MACAddress {
    fn from(octets: [u8; 6]) -> (r: MACAddress) {
        let r = MACAddress::new(octets);
        proof {
            MACAddress::lemma_of_view(r, octets@);
        }
        r
    }
}

impl vstd::std_specs::convert::FromSpecImpl<[u8; 6]> for MACAddress {
    open spec fn obeys_from_spec() -> bool {
        true
    }

    open spec fn from_spec(octets: [u8; 6]) -> MACAddress {
        MACAddress::of(octets@)
    }
}

impl MACAddress {
    /// The address as one 48-bit number, the first octet most significant.
    pub closed spec fn bits(&self) -> nat {
        (self.octets[0] * 0x100_0000_0000 + self.octets[1] * 0x1_0000_0000 + self.octets[2]
            * 0x100_0000 + self.octets[3] * 0x1_0000 + self.octets[4] * 0x100
            + self.octets[5]) as nat
    }

    /// The number of an address is that of its octets in base 256.
    pub proof fn lemma_bits(a: MACAddress)
        ensures
            a.bits() == a@[0] * 0x100_0000_0000 + a@[1] * 0x1_0000_0000 + a@[2] * 0x100_0000
                + a@[3] * 0x1_0000 + a@[4] * 0x100 + a@[5],
    {
    }

    /// The address as one 48-bit number.
    pub fn to_bits(&self) -> (r: u64)
        ensures
            r as nat == self.bits(),
    {
        let s = &self.octets;
        let mut r: u64 = s[0] as u64;
        r = r * 0x100 + s[1] as u64;
        r = r * 0x100 + s[2] as u64;
        r = r * 0x100 + s[3] as u64;
        r = r * 0x100 + s[4] as u64;
        r = r * 0x100 + s[5] as u64;
        r
    }

    /// How `self` stands to `other` in the order of addresses, which is the
    /// order of their 48-bit numbers.
    pub open spec fn order(&self, other: &Self) -> Ordering {
        if self.bits() < other.bits() {
            Ordering::Less
        } else if self.bits() == other.bits() {
            Ordering::Equal
        } else {
            Ordering::Greater
        }
    }

    /// Two addresses have the same number only if they are the same, so that
    /// two addresses are ordered as equal exactly where they are equal.
    pub proof fn lemma_order_equal(a: MACAddress, b: MACAddress)
        ensures
            a.order(&b) == Ordering::Equal <==> a == b,
    {
        if a.bits() == b.bits() {
            reveal_with_fuel(number_of, 7);
            assert(a.bits() == number_of(a@, 6));
            assert(b.bits() == number_of(b@, 6));
            lemma_number_injective(a@, b@, 6);
            assert(a.octets =~= b.octets);
        }
    }

    /// Compares two addresses by their 48-bit numbers.
    pub fn compare(&self, other: &Self) -> (r: Ordering)
        ensures
            r == self.order(other),
    {
        let a = self.to_bits();
        let b = other.to_bits();
        if a < b {
            Ordering::Less
        } else if a == b {
            Ordering::Equal
        } else {
            Ordering::Greater
        }
    }
}

/// The number that the first `n` of `octets` denote in base 256, the first
/// octet most significant.
spec fn number_of(octets: Seq<u8>, n: int) -> nat
    decreases n,
{
    if n <= 0 {
        0
    } else {
        number_of(octets, n - 1) * 0x100 + octets[n - 1] as nat
    }
}

/// Octets that denote the same number are the same.
proof fn lemma_number_injective(a: Seq<u8>, b: Seq<u8>, n: int)
    requires
        0 <= n <= a.len(),
        n <= b.len(),
        number_of(a, n) == number_of(b, n),
    ensures
        forall|k: int| 0 <= k < n ==> a[k] == b[k],
    decreases n,
{
    if n > 0 {
        let x = number_of(a, n - 1);
        let y = number_of(b, n - 1);
        assert(x * 0x100 + a[n - 1] == y * 0x100 + b[n - 1]);
        assert(x == y);
        lemma_number_injective(a, b, n - 1);
    }
}

impl PartialOrd for MACAddress {
    fn partial_cmp(&self, other: &Self) -> (r: Option<Ordering>) {
        Some(self.compare(other))
    }
}

impl vstd::std_specs::cmp::PartialOrdSpecImpl for MACAddress {
    open spec fn obeys_partial_cmp_spec() -> bool {
        true
    }

    open spec fn partial_cmp_spec(&self, other: &Self) -> Option<Ordering> {
        Some(self.order(other))
    }
}

} // verus!
