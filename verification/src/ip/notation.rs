//! The notation that the CIDRs of both families share: the text of an
//! address, a slash, and the prefix length in decimal.

use crate::ip::error::InvalidCIDRError;
use crate::text::digits::dec_text;
use crate::text::digits::lemma_dec_text;
use crate::text::digits::lemma_parse_u8_text;
use crate::text::digits::parse_dec_u8;
use crate::text::digits::parse_u8_text;
use crate::text::digits::push_dec_u8;
use crate::text::fields::is_free_of;
use crate::text::fields::lemma_split_cons;
use crate::text::fields::lemma_split_free;
use crate::text::fields::split;
use crate::text::fields::views;
use vstd::prelude::*;

verus! {

/// The text of a CIDR whose address has the text `address`.
pub open spec fn notation(address: Seq<char>, prefix: u8) -> Seq<char> {
    address + seq!['/'] + dec_text(prefix as nat)
}

/// The prefix length that the slash-delimited `fields` of a CIDR text give,
/// once the first field has been read as an address. The second field must
/// be there and be an unsigned 8-bit decimal numeral, and no third field may
/// follow it; the numeral is judged before the third field is.
pub open spec fn prefix_of(fields: Seq<Seq<char>>) -> Result<u8, InvalidCIDRError> {
    if fields.len() < 2 {
        Err(InvalidCIDRError::MissingPrefix)
    } else {
        match parse_u8_text(fields[1]) {
            Err(error) => Err(InvalidCIDRError::PrefixParseError(error)),
            Ok(prefix) => if fields.len() > 2 {
                Err(InvalidCIDRError::ExtraContent)
            } else {
                Ok(prefix)
            },
        }
    }
}

/// Reads the prefix length from the slash-delimited fields of a CIDR text.
pub fn parse_prefix(fields: &Vec<&[char]>) -> (r: Result<u8, InvalidCIDRError>)
    ensures
        r == prefix_of(views(fields@)),
{
    if fields.len() < 2 {
        return Err(InvalidCIDRError::MissingPrefix);
    }
    assert(views(fields@)[1] == fields@[1]@);
    match parse_dec_u8(fields[1]) {
        Err(error) => Err(InvalidCIDRError::PrefixParseError(error)),
        Ok(prefix) => if fields.len() > 2 {
            Err(InvalidCIDRError::ExtraContent)
        } else {
            Ok(prefix)
        },
    }
}

/// Appends a slash and the decimal numeral of `prefix` to `out`, which makes
/// the text of an address in `out` the text of a CIDR.
pub fn push_prefix(out: &mut Vec<char>, prefix: u8)
    ensures
        final(out)@ == notation(old(out)@, prefix),
{
    out.push('/');
    push_dec_u8(out, prefix);
}

/// The text of a CIDR falls into the text of its address and the numeral of
/// its prefix, which is read back as the prefix, where the text of the
/// address holds no slash.
pub proof fn lemma_notation_fields(address: Seq<char>, prefix: u8)
    requires
        is_free_of(address, '/'),
    ensures
        notation(address, prefix).len() > 0,
        split(notation(address, prefix), '/') == seq![address, dec_text(prefix as nat)],
        prefix_of(split(notation(address, prefix), '/')) == Ok::<u8, InvalidCIDRError>(prefix),
{
    let numeral = dec_text(prefix as nat);
    lemma_dec_text(prefix as nat);
    lemma_parse_u8_text(prefix);
    lemma_split_free(numeral, '/');
    lemma_split_cons(address, numeral, '/');
    assert(seq![address] + seq![numeral] =~= seq![address, numeral]);
}

} // verus!
