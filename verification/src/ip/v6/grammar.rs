//! The text grammar of IPv6 addresses, over sequences of eight 16-bit
//! groups: colon-separated hexadecimal groups, `::` for one run of zero
//! groups, and a dotted-decimal IPv4 address for the last two groups.

use crate::ip::v4::address::IPv4Address;
use crate::text::digits::hex_text;
use crate::text::digits::hex_value;
use crate::text::digits::is_hex_text;
use crate::text::digits::lemma_hex_text;
use crate::text::fields::is_free_of;
use crate::text::fields::join;
use crate::text::fields::lemma_join_free;
use crate::text::fields::lemma_split_join;
use crate::text::fields::split;
use vstd::prelude::*;

verus! {

/// Whether `f` is one group of an address: one to four hexadecimal digits.
pub open spec fn is_group_text(f: Seq<char>) -> bool {
    1 <= f.len() <= 4 && is_hex_text(f)
}

/// Whether each of `fields` is a group text.
pub open spec fn are_group_texts(fields: Seq<Seq<char>>) -> bool {
    forall|i: int| 0 <= i < fields.len() ==> is_group_text(#[trigger] fields[i])
}

/// The groups that the group texts `fields` denote.
pub open spec fn group_values(fields: Seq<Seq<char>>) -> Seq<u16> {
    Seq::new(fields.len(), |i: int| hex_value(fields[i]) as u16)
}

/// The canonical texts of `groups`: lower-case hexadecimal without leading
/// zeros.
pub open spec fn group_texts(groups: Seq<u16>) -> Seq<Seq<char>> {
    Seq::new(groups.len(), |i: int| hex_text(groups[i] as nat))
}

/// The two groups that hold the IPv4 address `a`.
pub open spec fn groups_of_v4(a: IPv4Address) -> Seq<u16> {
    seq![
        (a.octets[0] * 0x100 + a.octets[1]) as u16,
        (a.octets[2] * 0x100 + a.octets[3]) as u16,
    ]
}

/// The IPv4 address that the two groups `high` and `low` hold.
pub open spec fn v4_of_groups(high: u16, low: u16) -> IPv4Address {
    IPv4Address {
        octets: [(high / 0x100) as u8, (high % 0x100) as u8, (low / 0x100) as u8, (low % 0x100) as u8],
    }
}

/// The groups that `s` lists, where `s` is the part of an address text on
/// one side of `::`, or the whole of a text without `::`. An empty text
/// lists none. Otherwise the text falls into fields at each colon, and each
/// field is a group; where `dotted_tail` allows it, the last field may be an
/// IPv4 address in dotted-decimal text instead, which stands for two groups.
pub open spec fn parse_groups(s: Seq<char>, dotted_tail: bool) -> Option<Seq<u16>> {
    if s.len() == 0 {
        Some(Seq::empty())
    } else {
        let fields = split(s, ':');
        if are_group_texts(fields) {
            Some(group_values(fields))
        } else if dotted_tail && are_group_texts(fields.drop_last()) && IPv4Address::parse_text(
            fields.last(),
        ) is Some {
            Some(
                group_values(fields.drop_last()) + groups_of_v4(
                    IPv4Address::parse_text(fields.last())->0,
                ),
            )
        } else {
            None
        }
    }
}

/// The position of the first `::` in `s`, or the length of `s` where there
/// is none.
pub open spec fn first_double_colon(s: Seq<char>) -> int
    decreases s.len(),
{
    if s.len() < 2 {
        s.len() as int
    } else if s[0] == ':' && s[1] == ':' {
        0
    } else {
        1 + first_double_colon(s.drop_first())
    }
}

/// `n` groups of zero.
pub open spec fn zero_groups(n: int) -> Seq<u16> {
    Seq::new(n as nat, |i: int| 0u16)
}

/// The eight groups that the text `s` denotes, if any. A text without `::`
/// lists exactly eight groups. In a text with `::`, the first `::` stands
/// for the zero groups that the groups listed before and after it leave
/// open, which must be at least one; only the groups after it may end in a
/// dotted-decimal IPv4 address.
pub open spec fn parse_segments(s: Seq<char>) -> Option<Seq<u16>> {
    let i = first_double_colon(s);
    if i < s.len() {
        match (parse_groups(s.take(i), false), parse_groups(s.skip(i + 2), true)) {
            (Some(head), Some(tail)) => if head.len() + tail.len() <= 7 {
                Some(head + zero_groups(8 - head.len() - tail.len()) + tail)
            } else {
                None
            },
            _ => None,
        }
    } else {
        match parse_groups(s, true) {
            Some(groups) => if groups.len() == 8 {
                Some(groups)
            } else {
                None
            },
            None => None,
        }
    }
}

/// The length of the run of zero groups that starts at position `i`.
pub open spec fn zero_run_len(groups: Seq<u16>, i: int) -> nat
    decreases groups.len() - i,
{
    if 0 <= i < groups.len() && groups[i] == 0 {
        1 + zero_run_len(groups, i + 1)
    } else {
        0
    }
}

/// The first position among the first `n` from which the longest run of
/// zero groups starts.
pub open spec fn longest_zero_run(groups: Seq<u16>, n: int) -> int
    decreases n,
{
    if n <= 1 {
        0
    } else {
        let best = longest_zero_run(groups, n - 1);
        if zero_run_len(groups, n - 1) > zero_run_len(groups, best) {
            n - 1
        } else {
            best
        }
    }
}

/// Whether `groups` hold an IPv4-mapped address: five zero groups, then
/// `ffff`, then the IPv4 address.
pub open spec fn is_v4_mapped(groups: Seq<u16>) -> bool {
    &&& groups.len() == 8
    &&& groups[0] == 0
    &&& groups[1] == 0
    &&& groups[2] == 0
    &&& groups[3] == 0
    &&& groups[4] == 0
    &&& groups[5] == 0xffff
}

/// The canonical text of the eight `groups`. An IPv4-mapped address is
/// written as `::ffff:` and the IPv4 address in dotted-decimal text. In any
/// other, the first of the longest runs of two or more zero groups is
/// written as `::`, and the groups about it in lower-case hexadecimal
/// without leading zeros, with colons between them.
pub open spec fn segments_text(groups: Seq<u16>) -> Seq<char> {
    if is_v4_mapped(groups) {
        seq![':', ':'] + hex_text(0xffff) + seq![':'] + v4_of_groups(groups[6], groups[7]).text()
    } else {
        let start = longest_zero_run(groups, 8);
        let len = zero_run_len(groups, start);
        if len >= 2 {
            join(group_texts(groups.take(start)), ':') + seq![':', ':'] + join(
                group_texts(groups.skip(start + len)),
                ':',
            )
        } else {
            join(group_texts(groups), ':')
        }
    }
}

/// The groups of a run of zeros are zero, and the run ends within the
/// groups.
pub proof fn lemma_zero_run(groups: Seq<u16>, i: int)
    requires
        0 <= i <= groups.len(),
    ensures
        i + zero_run_len(groups, i) <= groups.len(),
        forall|k: int| i <= k < i + zero_run_len(groups, i) ==> #[trigger] groups[k] == 0,
    decreases groups.len() - i,
{
    if i < groups.len() && groups[i] == 0 {
        lemma_zero_run(groups, i + 1);
    }
}

/// The longest run of zeros starts within the first `n` positions, none of
/// which starts a longer one, and none before it one as long.
pub proof fn lemma_longest_zero_run(groups: Seq<u16>, n: int)
    requires
        1 <= n,
    ensures
        0 <= longest_zero_run(groups, n) < n,
        forall|k: int|
            0 <= k < n ==> #[trigger] zero_run_len(groups, k) <= zero_run_len(
                groups,
                longest_zero_run(groups, n),
            ),
        forall|k: int|
            0 <= k < longest_zero_run(groups, n) ==> #[trigger] zero_run_len(groups, k)
                < zero_run_len(groups, longest_zero_run(groups, n)),
    decreases n,
{
    if n > 1 {
        lemma_longest_zero_run(groups, n - 1);
    }
}

/// The canonical texts of groups are group texts without a colon, and
/// denote the groups.
pub proof fn lemma_group_texts(groups: Seq<u16>)
    ensures
        are_group_texts(group_texts(groups)),
        group_values(group_texts(groups)) == groups,
        forall|i: int| 0 <= i < groups.len() ==> is_free_of(#[trigger] group_texts(groups)[i], ':'),
{
    let texts = group_texts(groups);
    assert forall|i: int| 0 <= i < groups.len() implies is_group_text(#[trigger] texts[i])
        && is_free_of(texts[i], ':') && hex_value(texts[i]) as u16 == groups[i] by {
        lemma_hex_text(groups[i] as nat);
    }
    assert(group_values(texts) =~= groups);
}

/// Whether `::` stands at position `i` of `s`.
pub open spec fn is_double_colon_at(s: Seq<char>, i: int) -> bool {
    0 <= i && i + 1 < s.len() && s[i] == ':' && s[i + 1] == ':'
}

/// `first_double_colon` is within the text exactly where `::` stands at it.
pub proof fn lemma_first_double_colon(s: Seq<char>)
    ensures
        0 <= first_double_colon(s) <= s.len(),
        first_double_colon(s) < s.len() ==> is_double_colon_at(s, first_double_colon(s)),
    decreases s.len(),
{
    if s.len() >= 2 && !(s[0] == ':' && s[1] == ':') {
        lemma_first_double_colon(s.drop_first());
    }
}

/// A position at which `::` stands, or the length of the text, with no `::`
/// before it, is the first.
pub proof fn lemma_first_double_colon_is(s: Seq<char>, i: int)
    requires
        0 <= i <= s.len(),
        forall|k: int| 0 <= k < i ==> !is_double_colon_at(s, k),
        i == s.len() || is_double_colon_at(s, i),
    ensures
        first_double_colon(s) == i,
    decreases s.len(),
{
    if s.len() < 2 {
    } else if s[0] == ':' && s[1] == ':' {
        assert(is_double_colon_at(s, 0));
    } else {
        assert(!is_double_colon_at(s, 0));
        let t = s.drop_first();
        assert forall|k: int| 0 <= k < i - 1 implies !is_double_colon_at(t, k) by {
            assert(!is_double_colon_at(s, k + 1));
        }
        lemma_first_double_colon_is(t, i - 1);
    }
}

/// No `::` begins within a text that holds no colon.
pub proof fn lemma_double_colon_after(before: Seq<char>, rest: Seq<char>)
    requires
        is_free_of(before, ':'),
    ensures
        first_double_colon(before + rest) == before.len() + first_double_colon(rest),
    decreases before.len(),
{
    let s = before + rest;
    if before.len() == 0 {
        assert(s =~= rest);
    } else {
        assert(s[0] == before[0]);
        assert(s.drop_first() =~= before.drop_first() + rest);
        lemma_double_colon_after(before.drop_first(), rest);
        if s.len() < 2 {
            assert(rest.len() == 0);
            assert(before.drop_first().len() == 0);
        }
    }
}

/// No `::` begins within the colon-separated list of one or more fields
/// that are not empty and hold no colon.
pub proof fn lemma_double_colon_after_join(fields: Seq<Seq<char>>, rest: Seq<char>)
    requires
        fields.len() >= 1,
        forall|i: int|
            0 <= i < fields.len() ==> (#[trigger] fields[i]).len() >= 1 && is_free_of(
                fields[i],
                ':',
            ),
    ensures
        first_double_colon(join(fields, ':') + rest) == join(fields, ':').len()
            + first_double_colon(rest),
    decreases fields.len(),
{
    if fields.len() == 1 {
        lemma_double_colon_after(fields[0], rest);
    } else {
        let others = fields.drop_first();
        assert forall|i: int| 0 <= i < others.len() implies (#[trigger] others[i]).len() >= 1
            && is_free_of(others[i], ':') by {
            assert(others[i] == fields[i + 1]);
        }
        lemma_double_colon_after_join(others, rest);
        let tail = join(others, ':') + rest;
        let after = seq![':'] + tail;
        assert(join(fields, ':') + rest =~= fields[0] + after);
        lemma_double_colon_after(fields[0], after);
        assert(others[0].len() >= 1);
        assert(join(others, ':')[0] == others[0][0]) by {
            if others.len() > 1 {
                assert(join(others, ':') == others[0] + seq![':'] + join(others.drop_first(), ':'));
            }
        }
        assert(after[1] == others[0][0]);
        assert(after[1] != ':');
        assert(after.drop_first() =~= tail);
    }
}

/// The colon-separated canonical texts of groups list those groups.
pub proof fn lemma_parse_listed_groups(groups: Seq<u16>, dotted_tail: bool)
    ensures
        parse_groups(join(group_texts(groups), ':'), dotted_tail) == Some(groups),
{
    let texts = group_texts(groups);
    lemma_group_texts(groups);
    if groups.len() == 0 {
        assert(groups =~= Seq::<u16>::empty());
    } else {
        assert(texts[0].len() >= 1);
        assert(join(texts, ':').len() >= 1) by {
            if texts.len() > 1 {
                assert(join(texts, ':') == texts[0] + seq![':'] + join(texts.drop_first(), ':'));
            }
        }
        lemma_split_join(texts, ':');
    }
}

/// No `::` begins within the colon-separated canonical texts of groups.
pub proof fn lemma_double_colon_after_groups(groups: Seq<u16>, rest: Seq<char>)
    ensures
        first_double_colon(join(group_texts(groups), ':') + rest) == join(
            group_texts(groups),
            ':',
        ).len() + first_double_colon(rest),
{
    let texts = group_texts(groups);
    lemma_group_texts(groups);
    if groups.len() == 0 {
        assert(join(texts, ':') + rest =~= rest);
    } else {
        lemma_double_colon_after_join(texts, rest);
    }
}

/// The groups of the IPv4 address that two groups hold are those two
/// groups.
pub proof fn lemma_groups_of_v4(high: u16, low: u16)
    ensures
        groups_of_v4(v4_of_groups(high, low)) == seq![high, low],
{
    assert(groups_of_v4(v4_of_groups(high, low)) =~= seq![high, low]);
}

/// The canonical text of an IPv4-mapped address denotes its groups.
proof fn lemma_parse_mapped_text(groups: Seq<u16>)
    requires
        is_v4_mapped(groups),
    ensures
        parse_segments(segments_text(groups)) == Some(groups),
{
    let v4 = v4_of_groups(groups[6], groups[7]);
    let marker = hex_text(0xffff);
    let dotted = v4.text();
    let s = segments_text(groups);
    let fields = seq![marker, dotted];
    lemma_hex_text(0xffff);
    IPv4Address::lemma_text_free(v4);
    IPv4Address::lemma_parse_text(v4);
    lemma_groups_of_v4(groups[6], groups[7]);
    assert(s[0] == ':' && s[1] == ':');
    assert(first_double_colon(s) == 0);
    assert(s.take(0) =~= Seq::<char>::empty());
    assert(join(fields, ':') =~= marker + seq![':'] + dotted) by {
        assert(fields.drop_first() =~= seq![dotted]);
        assert(join(fields.drop_first(), ':') == dotted);
    }
    assert(s.skip(2) =~= join(fields, ':'));
    lemma_split_join(fields, ':');
    // The dotted text is no group: a dot stands behind its first octet.
    let first = crate::text::digits::dec_text(v4.octets[0] as nat);
    assert(dotted[first.len() as int] == '.') by {
        let octets = seq![
            first,
            crate::text::digits::dec_text(v4.octets[1] as nat),
            crate::text::digits::dec_text(v4.octets[2] as nat),
            crate::text::digits::dec_text(v4.octets[3] as nat),
        ];
        assert(dotted == octets[0] + seq!['.'] + join(octets.drop_first(), '.'));
    }
    assert(!is_group_text(fields[1]));
    assert(!are_group_texts(fields));
    assert(fields.drop_last() =~= seq![marker]);
    assert(are_group_texts(fields.drop_last()));
    assert(group_values(fields.drop_last()) =~= seq![0xffffu16]);
    let tail = seq![0xffffu16] + seq![groups[6], groups[7]];
    assert(parse_groups(s.skip(2), true) == Some(tail));
    assert(Seq::<u16>::empty() + zero_groups(5) + tail =~= groups);
}

/// Parsing the canonical text of eight groups gives the groups back.
pub proof fn lemma_parse_segments_text(groups: Seq<u16>)
    requires
        groups.len() == 8,
    ensures
        parse_segments(segments_text(groups)) == Some(groups),
{
    if is_v4_mapped(groups) {
        lemma_parse_mapped_text(groups);
    } else {
        lemma_longest_zero_run(groups, 8);
        let start = longest_zero_run(groups, 8);
        let len = zero_run_len(groups, start) as int;
        lemma_zero_run(groups, start);
        let s = segments_text(groups);
        if len >= 2 {
            let before = groups.take(start);
            let after = groups.skip(start + len);
            let head = join(group_texts(before), ':');
            let tail = join(group_texts(after), ':');
            let rest = seq![':', ':'] + tail;
            assert(s =~= head + rest);
            lemma_double_colon_after_groups(before, rest);
            assert(first_double_colon(rest) == 0);
            assert(s.take(head.len() as int) =~= head);
            assert(s.skip(head.len() as int + 2) =~= tail);
            lemma_parse_listed_groups(before, false);
            lemma_parse_listed_groups(after, true);
            assert(before + zero_groups(8 - before.len() - after.len()) + after =~= groups);
        } else {
            assert(s + Seq::<char>::empty() =~= s);
            lemma_double_colon_after_groups(groups, Seq::empty());
            lemma_parse_listed_groups(groups, true);
        }
    }
}

/// The colon-separated canonical texts of groups hold no slash.
proof fn lemma_listed_groups_free(groups: Seq<u16>)
    ensures
        is_free_of(join(group_texts(groups), ':'), '/'),
{
    let texts = group_texts(groups);
    assert forall|i: int| 0 <= i < texts.len() implies is_free_of(#[trigger] texts[i], '/') by {
        lemma_hex_text(groups[i] as nat);
    }
    lemma_join_free(texts, ':', '/');
}

/// The canonical text of eight groups holds no slash.
pub proof fn lemma_segments_text_free(groups: Seq<u16>)
    requires
        groups.len() == 8,
    ensures
        is_free_of(segments_text(groups), '/'),
{
    if is_v4_mapped(groups) {
        lemma_hex_text(0xffff);
        IPv4Address::lemma_text_free(v4_of_groups(groups[6], groups[7]));
    } else {
        let start = longest_zero_run(groups, 8);
        let len = zero_run_len(groups, start) as int;
        lemma_listed_groups_free(groups);
        lemma_listed_groups_free(groups.take(start));
        lemma_listed_groups_free(groups.skip(start + len));
    }
}

/// The canonical text of eight groups holds a colon.
pub proof fn lemma_segments_text_colon(groups: Seq<u16>)
    requires
        groups.len() == 8,
    ensures
        !is_free_of(segments_text(groups), ':'),
{
    let s = segments_text(groups);
    if is_v4_mapped(groups) {
        assert(s[0] == ':');
    } else {
        let start = longest_zero_run(groups, 8);
        let len = zero_run_len(groups, start) as int;
        if len >= 2 {
            let head = join(group_texts(groups.take(start)), ':');
            assert(s[head.len() as int] == ':');
        } else {
            let texts = group_texts(groups);
            assert(s == texts[0] + seq![':'] + join(texts.drop_first(), ':'));
            assert(s[texts[0].len() as int] == ':');
        }
    }
}

} // verus!
