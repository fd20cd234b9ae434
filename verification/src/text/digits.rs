//! Decimal and hexadecimal numerals over character sequences.

use vstd::prelude::*;
use vstd::string::StringExecFns;

verus! {

/// Whether `c` is one of `0` to `9`.
pub open spec fn is_dec_digit(c: char) -> bool {
    '0' <= c && c <= '9'
}

/// The value of the decimal digit `c`.
pub open spec fn dec_digit_value(c: char) -> nat {
    (c as u32 - '0' as u32) as nat
}

/// The decimal digit of value `d`, for `d < 10`.
pub open spec fn dec_digit(d: nat) -> char {
    ('0' as u32 + d) as char
}

/// Whether every character of `s` is a decimal digit.
pub open spec fn is_dec_text(s: Seq<char>) -> bool {
    forall|i: int| 0 <= i < s.len() ==> is_dec_digit(#[trigger] s[i])
}

/// The number that the decimal digits of `s` denote, most significant first.
pub open spec fn dec_value(s: Seq<char>) -> nat
    decreases s.len(),
{
    if s.len() == 0 {
        0
    } else {
        dec_value(s.drop_last()) * 10 + dec_digit_value(s.last())
    }
}

/// The decimal numeral of `n`, without leading zeros.
pub open spec fn dec_text(n: nat) -> Seq<char>
    decreases n,
{
    if n < 10 {
        seq![dec_digit(n)]
    } else {
        dec_text(n / 10).push(dec_digit(n % 10))
    }
}

/// The numeral of `n` is made of digits, has no leading zero unless `n` is
/// zero, and denotes `n`.
pub proof fn lemma_dec_text(n: nat)
    ensures
        dec_text(n).len() >= 1,
        is_dec_text(dec_text(n)),
        dec_value(dec_text(n)) == n,
        dec_text(n)[0] == '0' <==> n == 0,
        n < 10 <==> dec_text(n).len() == 1,
        n < 100 ==> dec_text(n).len() <= 2,
        n < 1000 ==> dec_text(n).len() <= 3,
    decreases n,
{
    if n < 10 {
        assert(dec_text(n).drop_last() =~= Seq::<char>::empty());
        assert(dec_value(dec_text(n)) == dec_value(Seq::<char>::empty()) * 10 + dec_digit_value(
            dec_digit(n),
        ));
    } else {
        lemma_dec_text(n / 10);
        let t = dec_text(n / 10);
        assert(dec_text(n).drop_last() =~= t);
        assert(dec_text(n)[0] == t[0]);
    }
}

/// The value of a digit string does not shrink as the string is extended.
pub proof fn lemma_dec_value_monotonic(s: Seq<char>, j: int, k: int)
    requires
        is_dec_text(s),
        0 <= j <= k <= s.len(),
    ensures
        dec_value(s.take(j)) <= dec_value(s.take(k)),
    decreases k - j,
{
    if j < k {
        lemma_dec_value_monotonic(s, j, k - 1);
        assert(s.take(k).drop_last() =~= s.take(k - 1));
    }
}

/// Whether `c` is a hexadecimal digit, in either case.
pub open spec fn is_hex_digit(c: char) -> bool {
    ('0' <= c && c <= '9') || ('a' <= c && c <= 'f') || ('A' <= c && c <= 'F')
}

/// The value of the hexadecimal digit `c`.
pub open spec fn hex_digit_value(c: char) -> nat {
    if '0' <= c && c <= '9' {
        (c as u32 - '0' as u32) as nat
    } else if 'a' <= c && c <= 'f' {
        (c as u32 - 'a' as u32 + 10) as nat
    } else {
        (c as u32 - 'A' as u32 + 10) as nat
    }
}

/// The lower-case hexadecimal digit of value `d`, for `d < 16`.
pub open spec fn hex_digit_lower(d: nat) -> char {
    if d < 10 {
        ('0' as u32 + d) as char
    } else {
        ('a' as u32 + d - 10) as char
    }
}

/// The upper-case hexadecimal digit of value `d`, for `d < 16`.
pub open spec fn hex_digit_upper(d: nat) -> char {
    if d < 10 {
        ('0' as u32 + d) as char
    } else {
        ('A' as u32 + d - 10) as char
    }
}

/// Whether every character of `s` is a hexadecimal digit.
pub open spec fn is_hex_text(s: Seq<char>) -> bool {
    forall|i: int| 0 <= i < s.len() ==> is_hex_digit(#[trigger] s[i])
}

/// The number that the hexadecimal digits of `s` denote, most significant
/// first.
pub open spec fn hex_value(s: Seq<char>) -> nat
    decreases s.len(),
{
    if s.len() == 0 {
        0
    } else {
        hex_value(s.drop_last()) * 16 + hex_digit_value(s.last())
    }
}

/// The lower-case hexadecimal numeral of `n`, without leading zeros.
pub open spec fn hex_text(n: nat) -> Seq<char>
    decreases n,
{
    if n < 16 {
        seq![hex_digit_lower(n)]
    } else {
        hex_text(n / 16).push(hex_digit_lower(n % 16))
    }
}

/// The numeral of `n` is made of hexadecimal digits and denotes `n`.
pub proof fn lemma_hex_text(n: nat)
    ensures
        hex_text(n).len() >= 1,
        is_hex_text(hex_text(n)),
        hex_value(hex_text(n)) == n,
        n < 0x10 ==> hex_text(n).len() == 1,
        n < 0x100 ==> hex_text(n).len() <= 2,
        n < 0x1000 ==> hex_text(n).len() <= 3,
        n < 0x10000 ==> hex_text(n).len() <= 4,
    decreases n,
{
    if n < 16 {
        assert(hex_text(n).drop_last() =~= Seq::<char>::empty());
        assert(hex_value(hex_text(n)) == hex_value(Seq::<char>::empty()) * 16 + hex_digit_value(
            hex_digit_lower(n),
        ));
    } else {
        lemma_hex_text(n / 16);
        assert(hex_text(n).drop_last() =~= hex_text(n / 16));
    }
}

/// A string of at most `k` hexadecimal digits denotes a number below `16^k`.
pub proof fn lemma_hex_value_bound(s: Seq<char>)
    requires
        is_hex_text(s),
    ensures
        s.len() <= 1 ==> hex_value(s) < 0x10,
        s.len() <= 2 ==> hex_value(s) < 0x100,
        s.len() <= 3 ==> hex_value(s) < 0x1000,
        s.len() <= 4 ==> hex_value(s) < 0x10000,
    decreases s.len(),
{
    if s.len() > 0 {
        lemma_hex_value_bound(s.drop_last());
    }
}

/// Why a text is not an unsigned 8-bit decimal numeral.
#[derive(Clone, Copy, Debug, PartialEq, Eq, Structural, Hash)]
pub enum IntegerParseError {
    /// The text is empty.
    Empty,
    /// The text holds a character that is not a decimal digit.
    InvalidDigit,
    /// The digits denote a number above 255.
    Overflow,
}

impl IntegerParseError {
    /// The message of the error.
    pub open spec fn message(&self) -> Seq<char> {
        match self {
            IntegerParseError::Empty => "cannot parse integer from empty string"@,
            IntegerParseError::InvalidDigit => "invalid digit found in string"@,
            IntegerParseError::Overflow => "number too large to fit in target type"@,
        }
    }

    /// Renders the message of the error.
    pub fn to_string(&self) -> (s: String)
        ensures
            s@ == self.message(),
    {
        match self {
            IntegerParseError::Empty => String::from_str("cannot parse integer from empty string"),
            IntegerParseError::InvalidDigit => String::from_str("invalid digit found in string"),
            IntegerParseError::Overflow => String::from_str(
                "number too large to fit in target type",
            ),
        }
    }
}

/// What an unsigned 8-bit decimal numeral denotes. The text is read from the
/// left: it is rejected at the first character that is no digit, or at the
/// first digit with which the number read so far exceeds 255, whichever comes
/// first. Leading zeros are accepted; a sign is not.
pub open spec fn parse_u8_text(s: Seq<char>) -> Result<u8, IntegerParseError> {
    if s.len() == 0 {
        Err(IntegerParseError::Empty)
    } else if exists|k: int|
        0 <= k <= s.len() && is_dec_text(#[trigger] s.take(k)) && dec_value(s.take(k)) > 255 {
        Err(IntegerParseError::Overflow)
    } else if !is_dec_text(s) {
        Err(IntegerParseError::InvalidDigit)
    } else {
        Ok(dec_value(s) as u8)
    }
}

/// The decimal numeral of an 8-bit number is read back as that number.
pub proof fn lemma_parse_u8_text(n: u8)
    ensures
        parse_u8_text(dec_text(n as nat)) == Ok::<u8, IntegerParseError>(n),
{
    let s = dec_text(n as nat);
    lemma_dec_text(n as nat);
    assert forall|k: int| 0 <= k <= s.len() implies dec_value(#[trigger] s.take(k)) <= 255 by {
        lemma_dec_value_monotonic(s, k, s.len() as int);
        assert(s.take(s.len() as int) =~= s);
    }
}

/// The value of `c` as a decimal digit, if it is one.
pub fn dec_digit_of(c: char) -> (r: Option<u8>)
    ensures
        r is Some <==> is_dec_digit(c),
        r matches Some(d) ==> d as nat == dec_digit_value(c) && d < 10,
{
    if '0' <= c && c <= '9' {
        Some((c as u32 - '0' as u32) as u8)
    } else {
        None
    }
}

/// The value of `c` as a hexadecimal digit, if it is one.
pub fn hex_digit_of(c: char) -> (r: Option<u8>)
    ensures
        r is Some <==> is_hex_digit(c),
        r matches Some(d) ==> d as nat == hex_digit_value(c) && d < 16,
{
    if '0' <= c && c <= '9' {
        Some((c as u32 - '0' as u32) as u8)
    } else if 'a' <= c && c <= 'f' {
        Some((c as u32 - 'a' as u32 + 10) as u8)
    } else if 'A' <= c && c <= 'F' {
        Some((c as u32 - 'A' as u32 + 10) as u8)
    } else {
        None
    }
}

/// The decimal digit of value `d`.
pub fn dec_digit_char(d: u8) -> (c: char)
    requires
        d < 10,
    ensures
        c == dec_digit(d as nat),
{
    ('0' as u8 + d) as char
}

/// The lower-case hexadecimal digit of value `d`.
pub fn hex_digit_lower_char(d: u8) -> (c: char)
    requires
        d < 16,
    ensures
        c == hex_digit_lower(d as nat),
{
    if d < 10 {
        ('0' as u8 + d) as char
    } else {
        ('a' as u8 + (d - 10)) as char
    }
}

/// The upper-case hexadecimal digit of value `d`.
pub fn hex_digit_upper_char(d: u8) -> (c: char)
    requires
        d < 16,
    ensures
        c == hex_digit_upper(d as nat),
{
    if d < 10 {
        ('0' as u8 + d) as char
    } else {
        ('A' as u8 + (d - 10)) as char
    }
}

/// Reads `s` as an unsigned 8-bit decimal numeral.
pub fn parse_dec_u8(s: &[char]) -> (r: Result<u8, IntegerParseError>)
    ensures
        r == parse_u8_text(s@),
{
    if s.len() == 0 {
        return Err(IntegerParseError::Empty);
    }
    let mut value: u8 = 0;
    let mut i: usize = 0;
    while i < s.len()
        invariant
            0 <= i <= s.len(),
            is_dec_text(s@.take(i as int)),
            value as nat == dec_value(s@.take(i as int)),
        decreases s.len() - i,
    {
        let ghost read = s@.take(i as int);
        let ghost next = s@.take(i + 1);
        proof {
            assert(next.drop_last() =~= read);
            assert(next.last() == s@[i as int]);
        }
        match dec_digit_of(s[i]) {
            None => {
                proof {
                    assert(!is_dec_digit(s@[i as int]));
                    assert forall|k: int|
                        0 <= k <= s@.len() && is_dec_text(#[trigger] s@.take(k)) implies dec_value(
                        s@.take(k),
                    ) <= 255 by {
                        if k > i {
                            assert(s@.take(k)[i as int] == s@[i as int]);
                        } else {
                            lemma_dec_value_monotonic(read, k, i as int);
                            assert(read.take(k) =~= s@.take(k));
                            assert(read.take(i as int) =~= read);
                        }
                    }
                }
                return Err(IntegerParseError::InvalidDigit);
            },
            Some(d) => {
                if value > 25 || (value == 25 && d > 5) {
                    proof {
                        assert(is_dec_text(next));
                        assert(dec_value(next) > 255);
                    }
                    return Err(IntegerParseError::Overflow);
                }
                value = value * 10 + d;
                i += 1;
            },
        }
    }
    proof {
        assert(s@.take(i as int) =~= s@);
        assert forall|k: int|
            0 <= k <= s@.len() && is_dec_text(#[trigger] s@.take(k)) implies dec_value(s@.take(k))
            <= 255 by {
            lemma_dec_value_monotonic(s@, k, s@.len() as int);
        }
    }
    Ok(value)
}

/// Appends the decimal numeral of `n` to `out`.
pub fn push_dec_u8(out: &mut Vec<char>, n: u8)
    ensures
        final(out)@ == old(out)@ + dec_text(n as nat),
{
    proof {
        lemma_dec_text(n as nat);
        reveal_with_fuel(dec_text, 3);
    }
    if n >= 100 {
        out.push(dec_digit_char(n / 100));
    }
    if n >= 10 {
        out.push(dec_digit_char((n / 10) % 10));
    }
    out.push(dec_digit_char(n % 10));
    assert(final(out)@ =~= old(out)@ + dec_text(n as nat));
}

/// Appends the lower-case hexadecimal numeral of `n` to `out`.
pub fn push_hex_u16(out: &mut Vec<char>, n: u16)
    ensures
        final(out)@ == old(out)@ + hex_text(n as nat),
{
    proof {
        reveal_with_fuel(hex_text, 4);
    }
    if n >= 0x1000 {
        out.push(hex_digit_lower_char((n / 0x1000) as u8));
    }
    if n >= 0x100 {
        out.push(hex_digit_lower_char(((n / 0x100) % 16) as u8));
    }
    if n >= 0x10 {
        out.push(hex_digit_lower_char(((n / 0x10) % 16) as u8));
    }
    out.push(hex_digit_lower_char((n % 16) as u8));
    assert(final(out)@ =~= old(out)@ + hex_text(n as nat));
}

} // verus!
