//! IPv4 addresses and their dotted-decimal text.

use crate::ip::error::AddressParseError;
use crate::text::chars::chars_of;
use crate::text::chars::string_of;
use crate::text::digits::dec_text;
use crate::text::digits::dec_value;
use crate::text::digits::is_dec_text;
use crate::text::digits::lemma_dec_text;
use crate::text::digits::lemma_dec_value_monotonic;
use crate::text::digits::parse_dec_u8;
use crate::text::digits::push_dec_u8;
use crate::text::fields::is_free_of;
use crate::text::fields::join;
use crate::text::fields::lemma_join_free;
use crate::text::fields::lemma_join_push;
use crate::text::fields::lemma_join_split;
use crate::text::fields::lemma_split_join;
use crate::text::fields::split;
use crate::text::fields::split_fields;
use std::cmp::Ordering;
use vstd::prelude::*;

verus! {

/// An IPv4 address: four octets, the most significant first.
#[derive(Clone, Copy, Debug, Eq, Ord, Hash)]
pub struct IPv4Address {
    /// The four octets of the address.
    pub octets: [u8; 4],
}

/// Whether `f` is one octet of a dotted-decimal address: one to three
/// decimal digits, no leading zero before another digit, at most 255.
pub open spec fn is_octet_text(f: Seq<char>) -> bool {
    &&& 1 <= f.len() <= 3
    &&& is_dec_text(f)
    &&& f.len() > 1 ==> f[0] != '0'
    &&& dec_value(f) <= 255
}

impl View for IPv4Address {
    type V = Seq<u8>;

    open spec fn view(&self) -> Seq<u8> {
        self.octets@
    }
}

impl IPv4Address {
    /// The number of bits in an IPv4 address.
    pub const BITS: u8 = 32;

    /// The address as one 32-bit number, the first octet most significant.
    pub open spec fn bits(&self) -> nat {
        (self.octets[0] * 0x100_0000 + self.octets[1] * 0x1_0000 + self.octets[2] * 0x100
            + self.octets[3]) as nat
    }

    /// The canonical text of the address: its four octets in decimal, with
    /// dots between them.
    pub open spec fn text(&self) -> Seq<char> {
        join(
            seq![
                dec_text(self.octets[0] as nat),
                dec_text(self.octets[1] as nat),
                dec_text(self.octets[2] as nat),
                dec_text(self.octets[3] as nat),
            ],
            '.',
        )
    }

    /// The address that `s` denotes, if any: exactly four octet texts with
    /// dots between them.
    pub open spec fn parse_text(s: Seq<char>) -> Option<IPv4Address> {
        let f = split(s, '.');
        if f.len() == 4 && is_octet_text(f[0]) && is_octet_text(f[1]) && is_octet_text(f[2])
            && is_octet_text(f[3]) {
            Some(
                IPv4Address {
                    octets: [
                        dec_value(f[0]) as u8,
                        dec_value(f[1]) as u8,
                        dec_value(f[2]) as u8,
                        dec_value(f[3]) as u8,
                    ],
                },
            )
        } else {
            None
        }
    }

    /// Two addresses with the same octets are the same address.
    pub proof fn lemma_view_injective(a: IPv4Address, b: IPv4Address)
        requires
            a@ == b@,
        ensures
            a == b,
    {
        assert(a.octets =~= b.octets);
    }

    /// Creates the address `a.b.c.d`.
    pub fn new(a: u8, b: u8, c: u8, d: u8) -> (r: IPv4Address)
        ensures
            r@ == seq![a, b, c, d],
    {
        let r = IPv4Address { octets: [a, b, c, d] };
        assert(r@ =~= seq![a, b, c, d]);
        r
    }

    /// The four octets of the address, the most significant first.
    pub fn octets(&self) -> (r: [u8; 4])
        ensures
            r@ == self@,
    {
        self.octets
    }

    /// The address as one 32-bit number.
    pub fn to_bits(&self) -> (r: u32)
        ensures
            r as nat == self.bits(),
    {
        let a: u32 = self.octets[0] as u32;
        let b: u32 = self.octets[1] as u32;
        let c: u32 = self.octets[2] as u32;
        let d: u32 = self.octets[3] as u32;
        a * 0x100_0000 + b * 0x1_0000 + c * 0x100 + d
    }

    /// Appends the canonical text of the address to `out`.
    pub fn push_text(&self, out: &mut Vec<char>)
        ensures
            final(out)@ == old(out)@ + self.text(),
    {
        let ghost t0 = dec_text(self.octets[0] as nat);
        let ghost t1 = dec_text(self.octets[1] as nat);
        let ghost t2 = dec_text(self.octets[2] as nat);
        let ghost t3 = dec_text(self.octets[3] as nat);
        push_dec_u8(out, self.octets[0]);
        out.push('.');
        push_dec_u8(out, self.octets[1]);
        out.push('.');
        push_dec_u8(out, self.octets[2]);
        out.push('.');
        push_dec_u8(out, self.octets[3]);
        proof {
            lemma_join_push(Seq::empty(), t0, '.');
            lemma_join_push(seq![t0], t1, '.');
            lemma_join_push(seq![t0, t1], t2, '.');
            lemma_join_push(seq![t0, t1, t2], t3, '.');
            assert(Seq::<Seq<char>>::empty().push(t0) =~= seq![t0]);
            assert(seq![t0].push(t1) =~= seq![t0, t1]);
            assert(seq![t0, t1].push(t2) =~= seq![t0, t1, t2]);
            assert(seq![t0, t1, t2].push(t3) =~= seq![t0, t1, t2, t3]);
            assert(final(out)@ =~= old(out)@ + self.text());
        }
    }

    /// The canonical text of the address.
    pub fn to_string(&self) -> (s: String)
        ensures
            s@ == self.text(),
    {
        let mut out: Vec<char> = Vec::new();
        self.push_text(&mut out);
        assert(out@ =~= self.text());
        string_of(out.as_slice())
    }

    /// Reads the characters `s` as an address.
    pub fn parse_chars(s: &[char]) -> (r: Option<IPv4Address>)
        ensures
            r == Self::parse_text(s@),
    {
        let fields = split_fields(s, '.');
        if fields.len() != 4 {
            return None;
        }
        let a = match parse_octet(fields[0]) {
            Some(o) => o,
            None => { return None; },
        };
        let b = match parse_octet(fields[1]) {
            Some(o) => o,
            None => { return None; },
        };
        let c = match parse_octet(fields[2]) {
            Some(o) => o,
            None => { return None; },
        };
        let d = match parse_octet(fields[3]) {
            Some(o) => o,
            None => { return None; },
        };
        let r = IPv4Address { octets: [a, b, c, d] };
        proof {
            Self::lemma_view_injective(r, Self::parse_text(s@)->0);
        }
        Some(r)
    }

    /// Reads `s` as an address in dotted-decimal text.
    pub fn parse(s: &str) -> (r: Result<IPv4Address, AddressParseError>)
        ensures
            r == match Self::parse_text(s@) {
                Some(a) => Ok::<IPv4Address, AddressParseError>(a),
                None => Err(AddressParseError::IPv4),
            },
    {
        let chars = chars_of(s);
        match Self::parse_chars(chars.as_slice()) {
            Some(a) => Ok(a),
            None => Err(AddressParseError::IPv4),
        }
    }

    /// The text of an octet is an octet text, holds no other character than
    /// digits, and denotes the octet.
    pub proof fn lemma_octet_text(o: u8)
        ensures
            is_octet_text(dec_text(o as nat)),
            dec_value(dec_text(o as nat)) == o,
            is_free_of(dec_text(o as nat), '.'),
            is_free_of(dec_text(o as nat), ':'),
            is_free_of(dec_text(o as nat), '/'),
    {
        lemma_dec_text(o as nat);
    }

    /// The text of an address holds neither a colon nor a slash.
    pub proof fn lemma_text_free(a: IPv4Address)
        ensures
            is_free_of(a.text(), ':'),
            is_free_of(a.text(), '/'),
    {
        let f = seq![
            dec_text(a.octets[0] as nat),
            dec_text(a.octets[1] as nat),
            dec_text(a.octets[2] as nat),
            dec_text(a.octets[3] as nat),
        ];
        Self::lemma_octet_text(a.octets[0]);
        Self::lemma_octet_text(a.octets[1]);
        Self::lemma_octet_text(a.octets[2]);
        Self::lemma_octet_text(a.octets[3]);
        lemma_join_free(f, '.', ':');
        lemma_join_free(f, '.', '/');
    }

    /// A text that denotes an address holds no colon.
    pub proof fn lemma_parsed_text_free(s: Seq<char>)
        requires
            Self::parse_text(s) is Some,
        ensures
            is_free_of(s, ':'),
    {
        let f = split(s, '.');
        assert forall|i: int| 0 <= i < f.len() implies is_free_of(#[trigger] f[i], ':') by {
            assert(is_octet_text(f[i]));
        }
        lemma_join_free(f, '.', ':');
        lemma_join_split(s, '.');
    }

    /// Parsing the canonical text of an address gives the address back.
    pub proof fn lemma_parse_text(a: IPv4Address)
        ensures
            Self::parse_text(a.text()) == Some(a),
    {
        let f = seq![
            dec_text(a.octets[0] as nat),
            dec_text(a.octets[1] as nat),
            dec_text(a.octets[2] as nat),
            dec_text(a.octets[3] as nat),
        ];
        Self::lemma_octet_text(a.octets[0]);
        Self::lemma_octet_text(a.octets[1]);
        Self::lemma_octet_text(a.octets[2]);
        Self::lemma_octet_text(a.octets[3]);
        lemma_split_join(f, '.');
        let r = Self::parse_text(a.text())->0;
        assert(r@ =~= a@);
        Self::lemma_view_injective(r, a);
    }
}

/// Reads `f` as one octet of a dotted-decimal address.
fn parse_octet(f: &[char]) -> (r: Option<u8>)
    ensures
        r is Some <==> is_octet_text(f@),
        r matches Some(o) ==> o as nat == dec_value(f@),
{
    if f.len() < 1 || f.len() > 3 {
        return None;
    }
    if f.len() > 1 && f[0] == '0' {
        return None;
    }
    proof {
        assert(f@.take(f@.len() as int) =~= f@);
        if is_dec_text(f@) {
            assert forall|k: int| 0 <= k <= f@.len() implies dec_value(#[trigger] f@.take(k))
                <= dec_value(f@) by {
                lemma_dec_value_monotonic(f@, k, f@.len() as int);
            }
        }
    }
    match parse_dec_u8(f) {
        Ok(o) => Some(o),
        Err(_) => None,
    }
}

impl std::str::FromStr for IPv4Address {
    type Err = AddressParseError;

    fn from_str(s: &str) -> (r: Result<Self, Self::Err>)
        ensures
            r == match Self::parse_text(s@) {
                Some(a) => Ok::<IPv4Address, AddressParseError>(a),
                None => Err(AddressParseError::IPv4),
            },
    {
        IPv4Address::parse(s)
    }
}

impl PartialEq for IPv4Address {
    fn eq(&self, other: &Self) -> (r: bool) {
        let r = self.octets[0] == other.octets[0] && self.octets[1] == other.octets[1]
            && self.octets[2] == other.octets[2] && self.octets[3] == other.octets[3];
        proof {
            if r {
                assert(self.octets =~= other.octets);
            }
        }
        r
    }
}

impl vstd::std_specs::cmp::PartialEqSpecImpl for IPv4Address {
    open spec fn obeys_eq_spec() -> bool {
        true
    }

    open spec fn eq_spec(&self, other: &Self) -> bool {
        *self == *other
    }
}

impl IPv4Address {
    /// How `self` stands to `other` in the order of addresses, which is the
    /// order of their 32-bit numbers.
    pub open spec fn order(&self, other: &Self) -> Ordering {
        if self.bits() < other.bits() {
            Ordering::Less
        } else if self.bits() == other.bits() {
            Ordering::Equal
        } else {
            Ordering::Greater
        }
    }

    /// Two addresses have the same number only if they are the same, so that
    /// two addresses are ordered as equal exactly where they are equal.
    pub proof fn lemma_order_equal(a: IPv4Address, b: IPv4Address)
        ensures
            a.order(&b) == Ordering::Equal <==> a == b,
    {
        if a.bits() == b.bits() {
            assert(a.octets[0] == b.octets[0]);
            assert(a.octets[1] == b.octets[1]);
            assert(a.octets[2] == b.octets[2]);
            assert(a.octets[3] == b.octets[3]);
            assert(a.octets =~= b.octets);
        }
    }

    /// Compares two addresses by their 32-bit numbers.
    pub fn compare(&self, other: &Self) -> (r: Ordering)
        ensures
            r == self.order(other),
    {
        let a = self.to_bits();
        let b = other.to_bits();
        if a < b {
            Ordering::Less
        } else if a == b {
            Ordering::Equal
        } else {
            Ordering::Greater
        }
    }
}

impl PartialOrd for IPv4Address {
    fn partial_cmp(&self, other: &Self) -> (r: Option<Ordering>) {
        Some(self.compare(other))
    }
}

impl vstd::std_specs::cmp::PartialOrdSpecImpl for IPv4Address {
    open spec fn obeys_partial_cmp_spec() -> bool {
        true
    }

    open spec fn partial_cmp_spec(&self, other: &Self) -> Option<Ordering> {
        Some(self.order(other))
    }
}

} // verus!
