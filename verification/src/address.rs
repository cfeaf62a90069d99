//! The base address as the user writes it: decimal, or hexadecimal behind
//! the prefix `0x`.

use core::num::ParseIntError;
use vstd::prelude::*;
use vstd::string::*;

verus! {

/// `core::num::ParseIntError`, the error of the number parsers of the
/// standard library.
#[verifier::external_type_specification]
#[verifier::external_body]
pub struct ExParseIntError(ParseIntError);

/// What `u32::from_str_radix` returns for the given text and radix.
pub uninterp spec fn radix_value(digits: Seq<char>, radix: u32) -> Result<u32, ParseIntError>;

/// `u32::from_str_radix`, which reads an unsigned number written in the given
/// radix and panics on a radix outside 2 to 36.
/// Trusted: its result depends on the text and the radix alone.
#[verifier::external_body]
fn from_str_radix(digits: &str, radix: u32) -> (value: Result<u32, ParseIntError>)
    requires
        2 <= radix <= 36,
    ensures
        value == radix_value(digits@, radix),
{
    u32::from_str_radix(digits, radix)
}

/// Whether the text begins with `0x`.
pub open spec fn has_hex_prefix(text: Seq<char>) -> bool {
    text.len() >= 2 && text[0] == '0' && text[1] == 'x'
}

/// The number that a text stands for: what follows `0x` read in radix 16,
/// and any other text read in radix 10.
pub open spec fn address_value(text: Seq<char>) -> Result<u32, ParseIntError> {
    if has_hex_prefix(text) {
        radix_value(text.skip(2), 16)
    } else {
        radix_value(text, 10)
    }
}

/// Reads an address: hexadecimal behind `0x`, decimal otherwise.
pub fn parse_hex(src: &str) -> (value: Result<u32, ParseIntError>)
    ensures
        value == address_value(src@),
{
    let length: usize = src.unicode_len();
    if length >= 2 && src.get_char(0) == '0' && src.get_char(1) == 'x' {
        let digits: &str = src.substring_char(2, length);
        from_str_radix(digits, 16)
    } else {
        from_str_radix(src, 10)
    }
}

} // verus!
