//! Byte strings and their hexadecimal text.

use vstd::prelude::*;
use vstd::slice::slice_to_vec;
use vstd::string::StringSliceAdditionalSpecFns;

verus! {

/// The lower-case hexadecimal digit of a nibble.
pub open spec fn hex_digit(n: int) -> char {
    if n == 0 { '0' } else if n == 1 { '1' } else if n == 2 { '2' } else if n == 3 { '3' }
    else if n == 4 { '4' } else if n == 5 { '5' } else if n == 6 { '6' } else if n == 7 { '7' }
    else if n == 8 { '8' } else if n == 9 { '9' } else if n == 10 { 'a' } else if n == 11 { 'b' }
    else if n == 12 { 'c' } else if n == 13 { 'd' } else if n == 14 { 'e' } else { 'f' }
}

/// Two lower-case hexadecimal digits for every byte, high nibble first.
pub open spec fn hex_chars(data: Seq<u8>) -> Seq<char> {
    Seq::new(2 * data.len(), |i: int| if i % 2 == 0 {
        hex_digit(data[i / 2] as int / 16)
    } else {
        hex_digit(data[i / 2] as int % 16)
    })
}

/// The value of an ASCII hexadecimal digit of either case.
pub open spec fn hex_value(c: u8) -> Option<int> {
    if 0x30 <= c <= 0x39 {
        Some(c - 0x30)
    } else if 0x61 <= c <= 0x66 {
        Some(c - 0x61 + 10)
    } else if 0x41 <= c <= 0x46 {
        Some(c - 0x41 + 10)
    } else {
        None
    }
}

/// Every byte of `text` is a hexadecimal digit.
pub open spec fn all_hex(text: Seq<u8>) -> bool {
    forall|i: int| 0 <= i < text.len() ==> (#[trigger] hex_value(text[i])) is Some
}

/// The bytes that an even-length run of hexadecimal digits stands for.
pub open spec fn hex_decoded(text: Seq<u8>) -> Seq<u8> {
    Seq::new(text.len() / 2, |i: int|
        (hex_value(text[2 * i]).unwrap() * 16 + hex_value(text[2 * i + 1]).unwrap()) as u8)
}

/// Why a text is not the hexadecimal form of a byte string.
#[derive(Debug, Clone, Copy, PartialEq, Eq, Structural)]
pub enum HexError {
    /// The text has an odd number of digits.
    OddLength,
    /// The byte at `index` is no hexadecimal digit.
    InvalidCharacter { index: usize },
    /// The text does not have the length that the target asks for.
    InvalidLength,
}

/// What decoding `text` as hexadecimal yields.
pub open spec fn hex_decode_result(text: Seq<u8>, r: Result<Seq<u8>, HexError>) -> bool {
    match r {
        Ok(bytes) => text.len() % 2 == 0 && all_hex(text) && bytes == hex_decoded(text),
        Err(HexError::OddLength) => text.len() % 2 == 1,
        Err(HexError::InvalidCharacter { index }) => {
            &&& text.len() % 2 == 0
            &&& index < text.len()
            &&& hex_value(text[index as int]) is None
            &&& forall|j: int| 0 <= j < index ==> (#[trigger] hex_value(text[j])) is Some
        },
        Err(HexError::InvalidLength) => false,
    }
}

/// `hex::encode`: the lower-case hexadecimal text of `data`, two digits per
/// byte and nothing else.
#[verifier::external_body]
pub(crate) fn hex_encode(data: &[u8]) -> (text: String)
    ensures
        text@ == hex_chars(data@),
{
    hex::encode(data)
}

/// `hex::decode`: the bytes behind an even-length run of hexadecimal digits
/// of either case. An odd length is reported before any digit is looked at;
/// otherwise the first byte that is no digit is reported with its index.
#[verifier::external_body]
pub(crate) fn hex_decode(text: &[u8]) -> (r: Result<Vec<u8>, HexError>)
    ensures
        hex_decode_result(text@, match r { Ok(v) => Ok(v@), Err(e) => Err(e) }),
{
    match hex::decode(text) {
        Ok(bytes) => Ok(bytes),
        Err(hex::FromHexError::OddLength) => Err(HexError::OddLength),
        Err(hex::FromHexError::InvalidHexCharacter { index, .. }) => Err(
            HexError::InvalidCharacter { index },
        ),
        Err(hex::FromHexError::InvalidStringLength) => Err(HexError::InvalidLength),
    }
}

/// Whether two byte strings hold the same bytes.
pub fn bytes_eq(a: &[u8], b: &[u8]) -> (same: bool)
    ensures
        same == (a@ == b@),
{
    if a.len() != b.len() {
        return false;
    }
    let mut i: usize = 0;
    while i < a.len()
        invariant
            a.len() == b.len(),
            i <= a.len(),
            forall|j: int| 0 <= j < i ==> a@[j] == b@[j],
        decreases a.len() - i,
    {
        if a[i] != b[i] {
            return false;
        }
        i += 1;
    }
    assert(a@ =~= b@);
    true
}

/// An owned copy of a byte string.
pub fn copy_bytes(a: &[u8]) -> (copy: Vec<u8>)
    ensures
        copy@ == a@,
{
    slice_to_vec(a)
}

/// `0x` and the lower-case hexadecimal digits of a byte string.
pub open spec fn hex0x(bytes: Seq<u8>) -> Seq<char> {
    seq!['0', 'x'] + hex_chars(bytes)
}

/// The text of a byte string as it is printed: `0x` and the lower-case
/// hexadecimal digits.
pub fn bytes_to_hex(bytes: &[u8]) -> (text: String)
    ensures
        text@ == hex0x(bytes@),
{
    let digits = hex_encode(bytes);
    let mut text = String::from_str("0x");
    proof {
        reveal_strlit("0x");
        assert("0x"@ =~= seq!['0', 'x']);
    }
    text.append(digits.as_str());
    text
}

/// `text` without a leading `0x`, or `text` itself where it has none.
pub open spec fn without_0x(text: Seq<u8>) -> Seq<u8> {
    if text.len() >= 2 && text[0] == 0x30 && text[1] == 0x78 {
        text.skip(2)
    } else {
        text
    }
}

/// Parses the hexadecimal text of a byte string, with or without a leading
/// `0x`.
pub fn hex_to_bytes(hex_str: &str) -> (r: Result<Vec<u8>, HexError>)
    ensures
        hex_decode_result(
            without_0x(hex_str.spec_bytes()),
            match r { Ok(v) => Ok(v@), Err(e) => Err(e) },
        ),
{
    let raw = hex_str.as_bytes();
    if raw.len() >= 2 && raw[0] == 0x30 && raw[1] == 0x78 {
        let rest = vstd::slice::slice_subrange(raw, 2, raw.len());
        assert(rest@ =~= raw@.skip(2));
        hex_decode(rest)
    } else {
        hex_decode(raw)
    }
}

/// What a list of byte strings holds.
pub open spec fn byte_lists(list: Seq<Vec<u8>>) -> Seq<Seq<u8>> {
    list.map_values(|b: Vec<u8>| b@)
}

/// Whether `x` is among the byte strings of `list`.
pub fn contains_bytes(list: &[Vec<u8>], x: &[u8]) -> (found: bool)
    ensures
        found == byte_lists(list@).contains(x@),
{
    let mut i: usize = 0;
    while i < list.len()
        invariant
            i <= list@.len(),
            forall|j: int| 0 <= j < i ==> byte_lists(list@)[j] != x@,
        decreases list@.len() - i,
    {
        if bytes_eq(list[i].as_slice(), x) {
            assert(byte_lists(list@)[i as int] == x@);
            return true;
        }
        assert(byte_lists(list@)[i as int] != x@);
        i += 1;
    }
    false
}

/// An owned copy of a byte string that may be absent.
pub fn copy_opt_bytes(b: &Option<Vec<u8>>) -> (copy: Option<Vec<u8>>)
    ensures
        match (copy, *b) {
            (Some(c), Some(o)) => c@ == o@,
            (None, None) => true,
            _ => false,
        },
{
    match b {
        Some(v) => Some(copy_bytes(v.as_slice())),
        None => None,
    }
}

} // verus!
