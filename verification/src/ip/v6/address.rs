//! IPv6 addresses and their text.

use crate::ip::error::AddressParseError;
use crate::ip::v4::address::IPv4Address;
use crate::ip::v6::grammar::are_group_texts;
use crate::ip::v6::grammar::first_double_colon;
use crate::ip::v6::grammar::group_texts;
use crate::ip::v6::grammar::group_values;
use crate::ip::v6::grammar::groups_of_v4;
use crate::ip::v6::grammar::is_group_text;
use crate::ip::v6::grammar::is_double_colon_at;
use crate::ip::v6::grammar::lemma_first_double_colon;
use crate::ip::v6::grammar::lemma_first_double_colon_is;
use crate::ip::v6::grammar::lemma_parse_segments_text;
use crate::ip::v6::grammar::lemma_segments_text_colon;
use crate::ip::v6::grammar::lemma_segments_text_free;
use crate::ip::v6::grammar::longest_zero_run;
use crate::ip::v6::grammar::parse_groups;
use crate::ip::v6::grammar::parse_segments;
use crate::ip::v6::grammar::segments_text;
use crate::ip::v6::grammar::v4_of_groups;
use crate::ip::v6::grammar::zero_groups;
use crate::ip::v6::grammar::zero_run_len;
use crate::text::chars::chars_of;
use crate::text::chars::string_of;
use crate::text::digits::hex_digit_of;
use crate::text::digits::hex_text;
use crate::text::digits::hex_value;
use crate::text::digits::is_hex_text;
use crate::text::digits::lemma_hex_value_bound;
use crate::text::digits::push_hex_u16;
use crate::text::fields::is_free_of;
use crate::text::fields::join;
use crate::text::fields::lemma_join_push;
use crate::text::fields::split;
use crate::text::fields::split_fields;
use crate::text::fields::views;
use std::cmp::Ordering;
use vstd::prelude::*;
use vstd::slice::slice_subrange;

verus! {

/// An IPv6 address: eight 16-bit groups, the most significant first.
#[derive(Clone, Copy, Debug, Eq, Ord, Hash)]
pub struct IPv6Address {
    /// The eight groups of the address.
    pub segments: [u16; 8],
}

impl View for IPv6Address {
    type V = Seq<u16>;

    open spec fn view(&self) -> Seq<u16> {
        self.segments@
    }
}

impl IPv6Address {
    /// The number of bits in an IPv6 address.
    pub const BITS: u8 = 128;

    /// The address whose groups are the eight elements of `groups`.
    pub open spec fn of(groups: Seq<u16>) -> IPv6Address {
        IPv6Address {
            segments: [
                groups[0],
                groups[1],
                groups[2],
                groups[3],
                groups[4],
                groups[5],
                groups[6],
                groups[7],
            ],
        }
    }

    /// The canonical text of the address.
    pub open spec fn text(&self) -> Seq<char> {
        segments_text(self@)
    }

    /// The address that `s` denotes, if any.
    pub open spec fn parse_text(s: Seq<char>) -> Option<IPv6Address> {
        match parse_segments(s) {
            Some(groups) => Some(Self::of(groups)),
            None => None,
        }
    }

    /// Two addresses with the same groups are the same address.
    pub proof fn lemma_view_injective(a: IPv6Address, b: IPv6Address)
        requires
            a@ == b@,
        ensures
            a == b,
    {
        assert(a.segments =~= b.segments);
    }

    /// An address is the address of its groups.
    pub proof fn lemma_of_view(a: IPv6Address)
        ensures
            Self::of(a@) == a,
            a@.len() == 8,
    {
        assert(Self::of(a@)@ =~= a@);
        Self::lemma_view_injective(Self::of(a@), a);
    }

    /// The text of an address holds no slash.
    pub proof fn lemma_text_free(a: IPv6Address)
        ensures
            is_free_of(a.text(), '/'),
    {
        Self::lemma_of_view(a);
        lemma_segments_text_free(a@);
    }

    /// The text of an address holds a colon.
    pub proof fn lemma_text_colon(a: IPv6Address)
        ensures
            !is_free_of(a.text(), ':'),
    {
        Self::lemma_of_view(a);
        lemma_segments_text_colon(a@);
    }

    /// Parsing the canonical text of an address gives the address back.
    pub proof fn lemma_parse_text(a: IPv6Address)
        ensures
            Self::parse_text(a.text()) == Some(a),
    {
        Self::lemma_of_view(a);
        lemma_parse_segments_text(a@);
    }

    /// Creates the address of the eight groups `a` to `h`.
    pub fn new(a: u16, b: u16, c: u16, d: u16, e: u16, f: u16, g: u16, h: u16) -> (r: IPv6Address)
        ensures
            r@ == seq![a, b, c, d, e, f, g, h],
    {
        let r = IPv6Address { segments: [a, b, c, d, e, f, g, h] };
        assert(r@ =~= seq![a, b, c, d, e, f, g, h]);
        r
    }

    /// The eight groups of the address, the most significant first.
    pub fn segments(&self) -> (r: [u16; 8])
        ensures
            r@ == self@,
    {
        self.segments
    }
}

/// Reads `f` as one group of an address.
fn parse_group(f: &[char]) -> (r: Option<u16>)
    ensures
        r is Some <==> is_group_text(f@),
        r matches Some(g) ==> g as nat == hex_value(f@),
{
    if f.len() < 1 || f.len() > 4 {
        return None;
    }
    let mut value: u16 = 0;
    let mut i: usize = 0;
    while i < f.len()
        invariant
            0 <= i <= f.len() <= 4,
            is_hex_text(f@.take(i as int)),
            value as nat == hex_value(f@.take(i as int)),
        decreases f.len() - i,
    {
        proof {
            lemma_hex_value_bound(f@.take(i as int));
            assert(f@.take(i + 1).drop_last() =~= f@.take(i as int));
        }
        match hex_digit_of(f[i]) {
            None => {
                return None;
            },
            Some(d) => {
                value = value * 16 + d as u16;
                i += 1;
            },
        }
    }
    assert(f@.take(i as int) =~= f@);
    Some(value)
}

/// The position of the first `::` in `s`, or the length of `s` where there
/// is none.
fn find_double_colon(s: &[char]) -> (i: usize)
    ensures
        i == first_double_colon(s@),
{
    let mut i: usize = 0;
    while i < s.len() && i + 1 < s.len()
        invariant
            0 <= i <= s.len(),
            forall|k: int| 0 <= k < i ==> !is_double_colon_at(s@, k),
        decreases s.len() - i,
    {
        if s[i] == ':' && s[i + 1] == ':' {
            proof {
                lemma_first_double_colon_is(s@, i as int);
            }
            return i;
        }
        i += 1;
    }
    proof {
        lemma_first_double_colon_is(s@, s@.len() as int);
    }
    s.len()
}

/// Reads the groups that `s` lists, the last of which may be a
/// dotted-decimal IPv4 address where `dotted_tail` allows it.
fn parse_groups_chars(s: &[char], dotted_tail: bool) -> (r: Option<Vec<u16>>)
    ensures
        r matches Some(groups) ==> parse_groups(s@, dotted_tail) == Some(groups@),
        r is None ==> parse_groups(s@, dotted_tail) is None,
{
    let mut groups: Vec<u16> = Vec::new();
    if s.len() == 0 {
        assert(groups@ =~= Seq::<u16>::empty());
        return Some(groups);
    }
    let fields = split_fields(s, ':');
    let ghost texts = split(s@, ':');
    let last = fields.len() - 1;
    let mut i: usize = 0;
    while i < last
        invariant
            0 <= i <= last == fields@.len() - 1,
            s@.len() > 0,
            texts == split(s@, ':'),
            views(fields@) == texts,
            are_group_texts(texts.take(i as int)),
            groups@ == group_values(texts.take(i as int)),
        decreases last - i,
    {
        match parse_group(fields[i]) {
            None => {
                proof {
                    assert(texts[i as int] == fields@[i as int]@);
                    assert(!is_group_text(texts[i as int]));
                    assert(!is_group_text(texts.drop_last()[i as int]));
                }
                return None;
            },
            Some(g) => {
                proof {
                    assert(texts[i as int] == fields@[i as int]@);
                    assert(texts.take(i + 1) =~= texts.take(i as int).push(texts[i as int]));
                    assert(group_values(texts.take(i + 1)) =~= groups@.push(g));
                }
                groups.push(g);
                i += 1;
            },
        }
    }
    proof {
        assert(texts.take(last as int) =~= texts.drop_last());
        assert(texts.last() == fields@[last as int]@);
        assert(texts =~= texts.drop_last().push(texts.last()));
    }
    match parse_group(fields[last]) {
        Some(g) => {
            proof {
                assert(group_values(texts) =~= groups@.push(g));
            }
            groups.push(g);
            Some(groups)
        },
        None => {
            if !dotted_tail {
                return None;
            }
            match IPv4Address::parse_chars(fields[last]) {
                None => None,
                Some(v4) => {
                    let o = v4.octets();
                    let ghost listed = groups@;
                    groups.push(o[0] as u16 * 0x100 + o[1] as u16);
                    groups.push(o[2] as u16 * 0x100 + o[3] as u16);
                    proof {
                        assert(groups@ =~= listed + groups_of_v4(v4));
                    }
                    Some(groups)
                },
            }
        },
    }
}

impl IPv6Address {
    /// Reads the characters `s` as an address.
    pub fn parse_chars(s: &[char]) -> (r: Option<IPv6Address>)
        ensures
            r == Self::parse_text(s@),
    {
        let at = find_double_colon(s);
        let mut segments: [u16; 8] = [0; 8];
        if at < s.len() {
            let head = match parse_groups_chars(slice_subrange(s, 0, at), false) {
                None => {
                    return None;
                },
                Some(head) => head,
            };
            proof {
                lemma_first_double_colon(s@);
            }
            let tail = match parse_groups_chars(slice_subrange(s, at + 2, s.len()), true) {
                None => {
                    return None;
                },
                Some(tail) => tail,
            };
            if head.len() > 7 || tail.len() > 7 - head.len() {
                return None;
            }
            let ghost groups = head@ + zero_groups(8 - head@.len() - tail@.len()) + tail@;
            let mut i: usize = 0;
            while i < head.len()
                invariant
                    0 <= i <= head.len(),
                    head.len() + tail.len() <= 7,
                    groups == head@ + zero_groups(8 - head@.len() - tail@.len()) + tail@,
                    forall|k: int| 0 <= k < i ==> segments@[k] == groups[k],
                    forall|k: int| i <= k < 8 ==> segments@[k] == 0,
                decreases head.len() - i,
            {
                segments[i] = head[i];
                i += 1;
            }
            let skip = 8 - tail.len();
            let mut j: usize = 0;
            while j < tail.len()
                invariant
                    0 <= j <= tail.len(),
                    head.len() + tail.len() <= 7,
                    skip == 8 - tail.len(),
                    groups == head@ + zero_groups(8 - head@.len() - tail@.len()) + tail@,
                    forall|k: int| 0 <= k < skip + j ==> segments@[k] == groups[k],
                    forall|k: int| skip + j <= k < 8 ==> segments@[k] == 0,
                decreases tail.len() - j,
            {
                segments[skip + j] = tail[j];
                j += 1;
            }
            let r = IPv6Address { segments };
            proof {
                assert(r@ =~= groups);
                assert(Self::of(groups)@ =~= groups);
                Self::lemma_view_injective(r, Self::of(groups));
            }
            Some(r)
        } else {
            let listed = match parse_groups_chars(s, true) {
                None => {
                    return None;
                },
                Some(listed) => listed,
            };
            if listed.len() != 8 {
                return None;
            }
            let mut i: usize = 0;
            while i < 8
                invariant
                    0 <= i <= 8 == listed.len(),
                    forall|k: int| 0 <= k < i ==> segments@[k] == listed@[k],
                decreases 8 - i,
            {
                segments[i] = listed[i];
                i += 1;
            }
            let r = IPv6Address { segments };
            proof {
                assert(r@ =~= listed@);
                assert(Self::of(listed@)@ =~= listed@);
                Self::lemma_view_injective(r, Self::of(listed@));
            }
            Some(r)
        }
    }

    /// Reads `s` as an address.
    pub fn parse(s: &str) -> (r: Result<IPv6Address, AddressParseError>)
        ensures
            r == match Self::parse_text(s@) {
                Some(a) => Ok::<IPv6Address, AddressParseError>(a),
                None => Err(AddressParseError::IPv6),
            },
    {
        let chars = chars_of(s);
        match Self::parse_chars(chars.as_slice()) {
            Some(a) => Ok(a),
            None => Err(AddressParseError::IPv6),
        }
    }
}

impl IPv6Address {
    /// The length of the run of zero groups that starts at position `i`.
    fn zero_run_from(&self, i: usize) -> (n: usize)
        requires
            i <= 8,
        ensures
            n == zero_run_len(self@, i as int),
            i + n <= 8,
    {
        let mut j: usize = i;
        while j < 8 && self.segments[j] == 0
            invariant
                i <= j <= 8,
                zero_run_len(self@, i as int) == (j - i) + zero_run_len(self@, j as int),
            decreases 8 - j,
        {
            j += 1;
        }
        j - i
    }

    /// Where the first of the longest runs of zero groups starts, and its
    /// length.
    fn find_longest_zero_run(&self) -> (r: (usize, usize))
        ensures
            r.0 == longest_zero_run(self@, 8),
            r.1 == zero_run_len(self@, r.0 as int),
            r.0 + r.1 <= 8,
    {
        let mut best: usize = 0;
        let mut best_len: usize = self.zero_run_from(0);
        let mut n: usize = 1;
        while n < 8
            invariant
                1 <= n <= 8,
                best == longest_zero_run(self@, n as int),
                best_len == zero_run_len(self@, best as int),
                best + best_len <= 8,
            decreases 8 - n,
        {
            let len = self.zero_run_from(n);
            if len > best_len {
                best = n;
                best_len = len;
            }
            n += 1;
        }
        (best, best_len)
    }

    /// Appends the canonical texts of the groups from position `from` up to
    /// `to`, with colons between them, to `out`.
    fn push_groups(&self, out: &mut Vec<char>, from: usize, to: usize)
        requires
            from <= to <= 8,
        ensures
            final(out)@ == old(out)@ + join(
                group_texts(self@.subrange(from as int, to as int)),
                ':',
            ),
    {
        let ghost before = out@;
        let mut i: usize = from;
        proof {
            assert(group_texts(self@.subrange(from as int, from as int)) =~= Seq::<
                Seq<char>,
            >::empty());
            assert(out@ =~= before + Seq::<char>::empty());
        }
        while i < to
            invariant
                from <= i <= to <= 8,
                out@ == before + join(group_texts(self@.subrange(from as int, i as int)), ':'),
            decreases to - i,
        {
            let ghost listed = group_texts(self@.subrange(from as int, i as int));
            let ghost text = hex_text(self@[i as int] as nat);
            proof {
                lemma_join_push(listed, text, ':');
                assert(group_texts(self@.subrange(from as int, i + 1)) =~= listed.push(text));
            }
            if i > from {
                out.push(':');
            }
            push_hex_u16(out, self.segments[i]);
            proof {
                assert(out@ =~= before + join(listed.push(text), ':'));
            }
            i += 1;
        }
    }

    /// Appends the canonical text of the address to `out`.
    pub fn push_text(&self, out: &mut Vec<char>)
        ensures
            final(out)@ == old(out)@ + self.text(),
    {
        let s = &self.segments;
        if s[0] == 0 && s[1] == 0 && s[2] == 0 && s[3] == 0 && s[4] == 0 && s[5] == 0xffff {
            let v4 = IPv4Address::new(
                (s[6] / 0x100) as u8,
                (s[6] % 0x100) as u8,
                (s[7] / 0x100) as u8,
                (s[7] % 0x100) as u8,
            );
            proof {
                let mapped = v4_of_groups(self@[6], self@[7]);
                assert(v4@ =~= mapped@);
                IPv4Address::lemma_view_injective(v4, mapped);
            }
            out.push(':');
            out.push(':');
            push_hex_u16(out, 0xffff);
            out.push(':');
            v4.push_text(out);
            assert(final(out)@ =~= old(out)@ + self.text());
        } else {
            let (start, len) = self.find_longest_zero_run();
            if len >= 2 {
                proof {
                    assert(self@.subrange(0, start as int) =~= self@.take(start as int));
                    assert(self@.subrange(start + len, 8) =~= self@.skip(start + len));
                }
                self.push_groups(out, 0, start);
                out.push(':');
                out.push(':');
                self.push_groups(out, start + len, 8);
                assert(final(out)@ =~= old(out)@ + self.text());
            } else {
                proof {
                    assert(self@.subrange(0, 8) =~= self@);
                }
                self.push_groups(out, 0, 8);
            }
        }
    }

    /// The canonical text of the address.
    pub fn to_string(&self) -> (s: String)
        ensures
            s@ == self.text(),
    {
        let mut out: Vec<char> = Vec::new();
        self.push_text(&mut out);
        assert(out@ =~= self.text());
        string_of(out.as_slice())
    }
}

/// The number that the first `n` of `groups` denote in base 65536, the
/// first group most significant.
spec fn number_of(groups: Seq<u16>, n: int) -> nat
    decreases n,
{
    if n <= 0 {
        0
    } else {
        number_of(groups, n - 1) * 0x1_0000 + groups[n - 1] as nat
    }
}

/// Groups that denote the same number are the same.
proof fn lemma_number_injective(a: Seq<u16>, b: Seq<u16>, n: int)
    requires
        0 <= n <= a.len(),
        n <= b.len(),
        number_of(a, n) == number_of(b, n),
    ensures
        forall|k: int| 0 <= k < n ==> a[k] == b[k],
    decreases n,
{
    if n > 0 {
        let x = number_of(a, n - 1);
        let y = number_of(b, n - 1);
        assert(x * 0x1_0000 + a[n - 1] == y * 0x1_0000 + b[n - 1]);
        assert(x == y);
        lemma_number_injective(a, b, n - 1);
    }
}

impl std::str::FromStr for IPv6Address {
    type Err = AddressParseError;

    fn from_str(s: &str) -> (r: Result<Self, Self::Err>)
        ensures
            r == match Self::parse_text(s@) {
                Some(a) => Ok::<IPv6Address, AddressParseError>(a),
                None => Err(AddressParseError::IPv6),
            },
    {
        IPv6Address::parse(s)
    }
}

impl PartialEq for IPv6Address {
    fn eq(&self, other: &Self) -> (r: bool) {
        let mut i: usize = 0;
        while i < 8
            invariant
                0 <= i <= 8,
                forall|k: int| 0 <= k < i ==> self.segments[k] == other.segments[k],
            decreases 8 - i,
        {
            if self.segments[i] != other.segments[i] {
                return false;
            }
            i += 1;
        }
        proof {
            assert(self.segments =~= other.segments);
        }
        true
    }
}

impl vstd::std_specs::cmp::PartialEqSpecImpl for IPv6Address {
    open spec fn obeys_eq_spec() -> bool {
        true
    }

    open spec fn eq_spec(&self, other: &Self) -> bool {
        *self == *other
    }
}

impl IPv6Address {
    /// The address as one 128-bit number, the first group most significant.
    pub open spec fn bits(&self) -> nat {
        (self.segments[0] * 0x1_0000_0000_0000_0000_0000_0000_0000 + self.segments[1]
            * 0x1_0000_0000_0000_0000_0000_0000 + self.segments[2]
            * 0x1_0000_0000_0000_0000_0000 + self.segments[3] * 0x1_0000_0000_0000_0000
            + self.segments[4] * 0x1_0000_0000_0000 + self.segments[5] * 0x1_0000_0000
            + self.segments[6] * 0x1_0000 + self.segments[7]) as nat
    }

    /// The address as one 128-bit number.
    pub fn to_bits(&self) -> (r: u128)
        ensures
            r as nat == self.bits(),
    {
        let s = &self.segments;
        let mut r: u128 = s[0] as u128;
        r = r * 0x1_0000 + s[1] as u128;
        r = r * 0x1_0000 + s[2] as u128;
        r = r * 0x1_0000 + s[3] as u128;
        r = r * 0x1_0000 + s[4] as u128;
        r = r * 0x1_0000 + s[5] as u128;
        r = r * 0x1_0000 + s[6] as u128;
        r = r * 0x1_0000 + s[7] as u128;
        r
    }

    /// How `self` stands to `other` in the order of addresses, which is the
    /// order of their 128-bit numbers.
    pub open spec fn order(&self, other: &Self) -> Ordering {
        if self.bits() < other.bits() {
            Ordering::Less
        } else if self.bits() == other.bits() {
            Ordering::Equal
        } else {
            Ordering::Greater
        }
    }

    /// Two addresses have the same number only if they are the same, so that
    /// two addresses are ordered as equal exactly where they are equal.
    pub proof fn lemma_order_equal(a: IPv6Address, b: IPv6Address)
        ensures
            a.order(&b) == Ordering::Equal <==> a == b,
    {
        if a.bits() == b.bits() {
            reveal_with_fuel(number_of, 9);
            assert(a.bits() == number_of(a@, 8));
            assert(b.bits() == number_of(b@, 8));
            lemma_number_injective(a@, b@, 8);
            assert(a.segments =~= b.segments);
        }
    }

    /// Compares two addresses by their 128-bit numbers.
    pub fn compare(&self, other: &Self) -> (r: Ordering)
        ensures
            r == self.order(other),
    {
        let a = self.to_bits();
        let b = other.to_bits();
        if a < b {
            Ordering::Less
        } else if a == b {
            Ordering::Equal
        } else {
            Ordering::Greater
        }
    }
}

impl PartialOrd for IPv6Address {
    fn partial_cmp(&self, other: &Self) -> (r: Option<Ordering>) {
        Some(self.compare(other))
    }
}

impl vstd::std_specs::cmp::PartialOrdSpecImpl for IPv6Address {
    open spec fn obeys_partial_cmp_spec() -> bool {
        true
    }

    open spec fn partial_cmp_spec(&self, other: &Self) -> Option<Ordering> {
        Some(self.order(other))
    }
}

} // verus!
