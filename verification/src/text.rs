//! Text helpers: comparing strings and printing numbers.

use crate::amount::decimal_text;
use vstd::prelude::*;

verus! {

/// The UTF-8 bytes of a text.
pub open spec fn utf8(text: Seq<char>) -> Seq<u8> {
    vstd::utf8::encode_utf8(text)
}

/// `str`'s `==`: whether the two texts hold the same characters.
#[verifier::external_body]
pub(crate) fn str_eq(a: &str, b: &str) -> (same: bool)
    ensures
        same == (a@ == b@),
{
    a == b
}

/// `u64`'s `to_string`: the decimal digits of the number.
#[verifier::external_body]
pub(crate) fn u64_text(x: u64) -> (text: String)
    ensures
        text@ == decimal_text(x as nat),
{
    x.to_string()
}

} // verus!
