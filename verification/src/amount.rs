//! Token amounts of any size.
//!
//! An amount is held as its big-endian bytes and stands for the natural
//! number that they spell. Sums, products and quotients are computed by the
//! arbitrary-precision integers of `bigdecimal::num_bigint`.

use bigdecimal::num_bigint::{BigInt, BigUint, Sign};
use vstd::prelude::*;
use vstd::slice::slice_to_vec;

verus! {

/// The natural number that big-endian bytes spell.
pub open spec fn be_nat(bytes: Seq<u8>) -> nat
    decreases bytes.len(),
{
    if bytes.len() == 0 {
        0
    } else {
        be_nat(bytes.drop_last()) * 256 + bytes.last() as nat
    }
}

/// Ten to the power `e`.
pub open spec fn pow10(e: nat) -> nat
    decreases e,
{
    if e == 0 {
        1
    } else {
        10 * pow10((e - 1) as nat)
    }
}

/// 256 to the power `e`.
pub open spec fn pow256(e: nat) -> nat
    decreases e,
{
    if e == 0 {
        1
    } else {
        256 * pow256((e - 1) as nat)
    }
}

/// The integer that big-endian bytes spell in two's complement.
pub open spec fn be_int(bytes: Seq<u8>) -> int {
    if bytes.len() > 0 && bytes[0] >= 128 {
        be_nat(bytes) - pow256(bytes.len())
    } else {
        be_nat(bytes) as int
    }
}

/// The character of a decimal digit.
pub open spec fn digit_char(d: nat) -> char {
    if d == 0 { '0' } else if d == 1 { '1' } else if d == 2 { '2' } else if d == 3 { '3' }
    else if d == 4 { '4' } else if d == 5 { '5' } else if d == 6 { '6' } else if d == 7 { '7' }
    else if d == 8 { '8' } else { '9' }
}

/// The decimal text of a natural number, without leading zeros.
pub open spec fn decimal_text(n: nat) -> Seq<char>
    decreases n,
{
    if n < 10 {
        seq![digit_char(n)]
    } else {
        decimal_text(n / 10).push(digit_char(n % 10))
    }
}

/// The decimal text of an integer, with `-` before a negative one.
pub open spec fn signed_decimal_text(n: int) -> Seq<char> {
    if n < 0 {
        seq!['-'] + decimal_text((-n) as nat)
    } else {
        decimal_text(n as nat)
    }
}

/// `BigUint` addition: the bytes of the sum of the two numbers.
#[verifier::external_body]
fn big_add(a: &[u8], b: &[u8]) -> (sum: Vec<u8>)
    ensures
        be_nat(sum@) == be_nat(a@) + be_nat(b@),
{
    (BigUint::from_bytes_be(a) + BigUint::from_bytes_be(b)).to_bytes_be()
}

/// `BigUint` multiplication: the bytes of the product of the two numbers.
#[verifier::external_body]
fn big_mul(a: &[u8], b: &[u8]) -> (product: Vec<u8>)
    ensures
        be_nat(product@) == be_nat(a@) * be_nat(b@),
{
    (BigUint::from_bytes_be(a) * BigUint::from_bytes_be(b)).to_bytes_be()
}

/// `BigUint` division, which rounds towards zero: the bytes of the quotient.
/// The divisor is not zero, on which the outside code panics.
#[verifier::external_body]
fn big_div(a: &[u8], b: &[u8]) -> (quotient: Vec<u8>)
    requires
        be_nat(b@) > 0,
    ensures
        be_nat(quotient@) == be_nat(a@) / be_nat(b@),
{
    (BigUint::from_bytes_be(a) / BigUint::from_bytes_be(b)).to_bytes_be()
}

/// `BigUint` remainder: the bytes of what division leaves. The divisor is
/// not zero, on which the outside code panics.
#[verifier::external_body]
fn big_rem(a: &[u8], b: &[u8]) -> (remainder: Vec<u8>)
    requires
        be_nat(b@) > 0,
    ensures
        be_nat(remainder@) == be_nat(a@) % be_nat(b@),
{
    (BigUint::from_bytes_be(a) % BigUint::from_bytes_be(b)).to_bytes_be()
}

/// `BigUint::pow` on ten: the bytes of ten to the power `e`.
#[verifier::external_body]
fn big_pow10(e: u32) -> (power: Vec<u8>)
    ensures
        be_nat(power@) == pow10(e as nat),
{
    BigUint::from(10u32).pow(e).to_bytes_be()
}

/// The order of `BigUint`: whether the first number is at most the second.
#[verifier::external_body]
fn big_le(a: &[u8], b: &[u8]) -> (le: bool)
    ensures
        le == (be_nat(a@) <= be_nat(b@)),
{
    BigUint::from_bytes_be(a) <= BigUint::from_bytes_be(b)
}

/// `BigUint::from` on a `u64`: the bytes of that number.
#[verifier::external_body]
fn big_from_u64(x: u64) -> (bytes: Vec<u8>)
    ensures
        be_nat(bytes@) == x,
{
    BigUint::from(x).to_bytes_be()
}

/// `BigUint::to_string`: the decimal digits of the number, without leading
/// zeros, `0` for zero.
#[verifier::external_body]
fn big_decimal(a: &[u8]) -> (text: String)
    ensures
        text@ == decimal_text(be_nat(a@)),
{
    BigUint::from_bytes_be(a).to_string()
}

/// `BigInt::from_signed_bytes_be`: reads big-endian two's complement. The
/// number is negative where the first byte has its top bit set, and its
/// magnitude is then what the bytes lack to the next power of 256.
#[verifier::external_body]
fn big_signed_parts(bytes: &[u8]) -> (parts: (bool, Vec<u8>))
    ensures
        parts.0 == (bytes@.len() > 0 && bytes@[0] >= 128),
        parts.0 ==> be_nat(parts.1@) == pow256(bytes@.len()) - be_nat(bytes@),
        !parts.0 ==> be_nat(parts.1@) == be_nat(bytes@),
{
    let (sign, magnitude) = BigInt::from_signed_bytes_be(bytes).to_bytes_be();
    (sign == Sign::Minus, magnitude)
}

/// A natural number of any size.
#[derive(Debug)]
pub struct Amount {
    /// The number's big-endian bytes; leading zeros are allowed.
    pub be: Vec<u8>,
}

impl View for Amount {
    type V = nat;

    open spec fn view(&self) -> nat {
        be_nat(self.be@)
    }
}

impl Clone for Amount {
    fn clone(&self) -> (copy: Self)
        ensures
            copy.be@ == self.be@,
            copy@ == self@,
    {
        Amount { be: slice_to_vec(self.be.as_slice()) }
    }
}

impl Amount {
    /// The amount that the given big-endian bytes spell.
    pub fn from_be_bytes(bytes: &[u8]) -> (amount: Self)
        ensures
            amount.be@ == bytes@,
            amount@ == be_nat(bytes@),
    {
        Amount { be: slice_to_vec(bytes) }
    }

    /// The amount `x`.
    pub fn from_u64(x: u64) -> (amount: Self)
        ensures
            amount@ == x,
    {
        Amount { be: big_from_u64(x) }
    }

    /// The amount zero.
    pub fn zero() -> (amount: Self)
        ensures
            amount@ == 0,
    {
        let amount = Amount { be: Vec::new() };
        assert(amount.be@.len() == 0);
        amount
    }

    /// Ten to the power `e`.
    pub fn pow10(e: u32) -> (amount: Self)
        ensures
            amount@ == pow10(e as nat),
    {
        Amount { be: big_pow10(e) }
    }

    /// `self + other`.
    pub fn plus(&self, other: &Amount) -> (sum: Self)
        ensures
            sum@ == self@ + other@,
    {
        Amount { be: big_add(self.be.as_slice(), other.be.as_slice()) }
    }

    /// `self * other`.
    pub fn times(&self, other: &Amount) -> (product: Self)
        ensures
            product@ == self@ * other@,
    {
        Amount { be: big_mul(self.be.as_slice(), other.be.as_slice()) }
    }

    /// `self / other`, rounded down; `None` where `other` is zero.
    pub fn div_floor(&self, other: &Amount) -> (quotient: Option<Self>)
        ensures
            other@ == 0 ==> quotient is None,
            other@ > 0 ==> quotient is Some && quotient.unwrap()@ == self@ / other@,
    {
        if other.is_zero() {
            None
        } else {
            Some(Amount { be: big_div(self.be.as_slice(), other.be.as_slice()) })
        }
    }

    /// `self % other`; `None` where `other` is zero.
    pub fn rem(&self, other: &Amount) -> (remainder: Option<Self>)
        ensures
            other@ == 0 ==> remainder is None,
            other@ > 0 ==> remainder is Some && remainder.unwrap()@ == self@ % other@,
    {
        if other.is_zero() {
            None
        } else {
            Some(Amount { be: big_rem(self.be.as_slice(), other.be.as_slice()) })
        }
    }

    /// Whether `self <= other`.
    pub fn le(&self, other: &Amount) -> (le: bool)
        ensures
            le == (self@ <= other@),
    {
        big_le(self.be.as_slice(), other.be.as_slice())
    }

    /// Whether `self >= other`.
    pub fn ge(&self, other: &Amount) -> (ge: bool)
        ensures
            ge == (self@ >= other@),
    {
        big_le(other.be.as_slice(), self.be.as_slice())
    }

    /// Whether `self < other`.
    pub fn lt(&self, other: &Amount) -> (lt: bool)
        ensures
            lt == (self@ < other@),
    {
        !big_le(other.be.as_slice(), self.be.as_slice())
    }

    /// Whether the two amounts are the same number, whatever their bytes.
    pub fn same(&self, other: &Amount) -> (same: bool)
        ensures
            same == (self@ == other@),
    {
        big_le(self.be.as_slice(), other.be.as_slice()) && big_le(
            other.be.as_slice(),
            self.be.as_slice(),
        )
    }

    /// Whether the amount is zero.
    pub fn is_zero(&self) -> (zero: bool)
        ensures
            zero == (self@ == 0),
    {
        let nothing: Vec<u8> = Vec::new();
        assert(be_nat(nothing@) == 0);
        big_le(self.be.as_slice(), nothing.as_slice())
    }

    /// The decimal digits of the amount.
    pub fn to_decimal(&self) -> (text: String)
        ensures
            text@ == decimal_text(self@),
    {
        big_decimal(self.be.as_slice())
    }
}

/// An integer of any size, as a sign and a magnitude.
#[derive(Debug)]
pub struct SignedAmount {
    /// Whether the integer is below zero, where the magnitude is not zero.
    pub negative: bool,
    /// The distance from zero.
    pub magnitude: Amount,
}

impl View for SignedAmount {
    type V = int;

    open spec fn view(&self) -> int {
        if self.negative {
            -(self.magnitude@ as int)
        } else {
            self.magnitude@ as int
        }
    }
}

impl Clone for SignedAmount {
    fn clone(&self) -> (copy: Self)
        ensures
            copy.negative == self.negative,
            copy.magnitude.be@ == self.magnitude.be@,
            copy@ == self@,
    {
        SignedAmount { negative: self.negative, magnitude: self.magnitude.clone() }
    }
}

impl SignedAmount {
    /// The integer that the bytes spell in big-endian two's complement.
    pub fn from_twos_complement(bytes: &[u8]) -> (value: Self)
        ensures
            value@ == be_int(bytes@),
    {
        let (negative, magnitude) = big_signed_parts(bytes);
        SignedAmount { negative, magnitude: Amount { be: magnitude } }
    }

    /// The amount as an integer that is not negative.
    pub fn from_amount(amount: Amount) -> (value: Self)
        ensures
            value@ == amount@,
            !value.negative,
            value.magnitude == amount,
    {
        SignedAmount { negative: false, magnitude: amount }
    }

    /// `-self`.
    pub fn negated(&self) -> (value: Self)
        ensures
            value@ == -self@,
    {
        SignedAmount { negative: !self.negative, magnitude: self.magnitude.clone() }
    }

    /// Whether the integer is above zero.
    pub fn is_positive(&self) -> (positive: bool)
        ensures
            positive == (self@ > 0),
    {
        !self.negative && !self.magnitude.is_zero()
    }

    /// The decimal text of the integer, with `-` before a negative one.
    pub fn to_decimal(&self) -> (text: String)
        ensures
            text@ == signed_decimal_text(self@),
    {
        let digits = self.magnitude.to_decimal();
        if self.negative && !self.magnitude.is_zero() {
            let mut text = String::from_str("-");
            proof {
                reveal_strlit("-");
                assert("-"@ =~= seq!['-']);
            }
            text.append(digits.as_str());
            text
        } else {
            digits
        }
    }
}

} // verus!
