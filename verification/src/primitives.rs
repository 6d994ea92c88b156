//! The recognisers and conversions that the assembler takes from `nom` and
//! from the standard library, each with the contract that the rest of the
//! crate relies on. Nothing in this file is proved: the contracts restate what
//! the called functions document.

use vstd::prelude::*;
use vstd::utf8::{decode_utf8, valid_utf8};

verus! {

/// The bytes `0-9`, `A-Z` and `a-z`.
pub open spec fn is_alphanumeric(b: u8) -> bool {
    ||| '0' as u8 <= b <= '9' as u8
    ||| 'A' as u8 <= b <= 'Z' as u8
    ||| 'a' as u8 <= b <= 'z' as u8
}

/// The characters `0` to `9`.
pub open spec fn is_digit(c: char) -> bool {
    '0' <= c <= '9'
}

/// The number that a sequence of decimal digits denotes, most significant digit first.
pub open spec fn decimal_value(digits: Seq<char>) -> nat
    decreases digits.len(),
{
    if digits.len() == 0 {
        0
    } else {
        (10 * decimal_value(digits.drop_last()) + (digits.last() as u32 - '0' as u32)) as nat
    }
}

/// One or more decimal digits.
pub open spec fn is_decimal(digits: Seq<char>) -> bool {
    &&& digits.len() > 0
    &&& forall|k: int| 0 <= k < digits.len() ==> is_digit(#[trigger] digits[k])
}

/// A text without the `+` that it may start with.
pub open spec fn without_plus(text: Seq<char>) -> Seq<char> {
    if text.len() > 0 && text[0] == '+' {
        text.skip(1)
    } else {
        text
    }
}

/// What a text denotes as a `u16`: an optional `+`, then one or more decimal
/// digits whose value is at most 65535. Every other text denotes nothing.
pub open spec fn spec_parse_u16(text: Seq<char>) -> Option<u16> {
    if is_decimal(without_plus(text)) && decimal_value(without_plus(text)) <= u16::MAX {
        Some(decimal_value(without_plus(text)) as u16)
    } else {
        None
    }
}

/// `nom::bytes::complete::tag` on byte slices. The call succeeds exactly when
/// `t` is a prefix of `i`, and then hands back `i` without that prefix.
#[verifier::external_body]
pub(crate) fn tag<'a>(t: &[u8], i: &'a [u8]) -> (r: Option<&'a [u8]>)
    ensures
        r is Some <==> t@.is_prefix_of(i@),
        r matches Some(rest) ==> rest@ == i@.skip(t@.len() as int),
{
    let r: nom::IResult<&'a [u8], &'a [u8]> = nom::bytes::complete::tag(t)(i);
    match r {
        Ok((rest, _)) => Some(rest),
        Err(_) => None,
    }
}

/// `nom::character::complete::alphanumeric1` on a byte slice. The call fails
/// when `i` is empty or starts with a byte that is not alphanumeric. Otherwise
/// it splits `i` after its longest alphanumeric prefix and returns the
/// remainder first, the prefix second.
#[verifier::external_body]
pub(crate) fn alphanumeric1<'a>(i: &'a [u8]) -> (r: Option<(&'a [u8], &'a [u8])>)
    ensures
        r is None <==> (i@.len() == 0 || !is_alphanumeric(i@[0])),
        r matches Some((rest, run)) ==> {
            &&& run@.len() > 0
            &&& run@ + rest@ == i@
            &&& forall|k: int| 0 <= k < run@.len() ==> is_alphanumeric(#[trigger] run@[k])
            &&& rest@.len() > 0 ==> !is_alphanumeric(rest@[0])
        },
{
    let r: nom::IResult<&'a [u8], &'a [u8]> = nom::character::complete::alphanumeric1(i);
    match r {
        Ok((rest, run)) => Some((rest, run)),
        Err(_) => None,
    }
}

/// `core::str::from_utf8`. The call succeeds exactly when the bytes are valid
/// UTF-8, and the string it returns is their decoding.
#[verifier::external_body]
pub(crate) fn utf8_text<'a>(bytes: &'a [u8]) -> (r: Option<&'a str>)
    ensures
        r is Some <==> valid_utf8(bytes@),
        r matches Some(text) ==> text@ == decode_utf8(bytes@),
{
    match core::str::from_utf8(bytes) {
        Ok(text) => Some(text),
        Err(_) => None,
    }
}

/// `str::parse::<u16>`. The call succeeds exactly on an optional `+` followed
/// by one or more decimal digits whose value fits sixteen bits, and returns
/// that value.
#[verifier::external_body]
pub(crate) fn parse_u16(text: &str) -> (r: Option<u16>)
    ensures
        r == spec_parse_u16(text@),
{
    match text.parse::<u16>() {
        Ok(value) => Some(value),
        Err(_) => None,
    }
}

} // verus!
