//! Natural numbers of any size.
//!
//! A [`Natural`] keeps its number as little-endian bytes. The arithmetic is
//! done by `num_bigint::BigUint`: each operation reads the operands' bytes
//! into `BigUint`s, lets `BigUint` compute, and writes the result back as
//! bytes. What those operations return is taken on trust from `num_bigint`;
//! the contracts of the private functions at the end of this file say what
//! exactly is taken.

use num_bigint::BigUint;
use num_traits::One;
use num_traits::Zero;
use vstd::prelude::*;
use vstd::arithmetic::power::pow;
use crate::byte_order::be_value;
use crate::byte_order::byte_length;
use crate::byte_order::is_minimal_be;
use crate::byte_order::is_minimal_le;
use crate::byte_order::le_value;
use crate::byte_order::lemma_byte_length_u64;
use crate::byte_order::lemma_le_value_low_bytes;
use crate::byte_order::lemma_minimal_be_unique;
use crate::byte_order::lemma_minimal_le_bytes;
use crate::byte_order::lemma_minimal_le_unique;
use crate::byte_order::lemma_pow256_values;
use crate::byte_order::minimal_be_bytes;
use crate::byte_order::minimal_le_bytes;
use crate::byte_order::pow256;

verus! {

/// A natural number of any size.
#[derive(Debug, Clone)]
pub struct Natural {
    /// The number, least significant byte first.
    bytes: Vec<u8>,
}

impl View for Natural {
    type V = nat;

    /// The number itself.
    closed spec fn view(&self) -> nat {
        le_value(self.bytes@)
    }
}

impl Natural {
    /// The number 0.
    pub fn zero() -> (n: Natural)
        ensures
            n@ == 0,
    {
        Natural { bytes: biguint_zero() }
    }

    /// The number 1.
    pub fn one() -> (n: Natural)
        ensures
            n@ == 1,
    {
        Natural { bytes: biguint_one() }
    }

    /// The number `value`.
    pub fn from_u64(value: u64) -> (n: Natural)
        ensures
            n@ == value,
    {
        Natural { bytes: biguint_from_u64(value) }
    }

    /// The number that `bytes` writes with its most significant byte first.
    pub fn from_bytes_be(bytes: &[u8]) -> (n: Natural)
        ensures
            n@ == be_value(bytes@),
    {
        Natural { bytes: biguint_from_bytes_be(bytes) }
    }

    /// The number that `bytes` writes with its least significant byte first.
    pub fn from_bytes_le(bytes: &[u8]) -> (n: Natural)
        ensures
            n@ == le_value(bytes@),
    {
        Natural { bytes: biguint_bytes_le(bytes) }
    }

    /// The shortest big-endian byte sequence for this number; `[0]` for 0.
    pub fn to_bytes_be(&self) -> (bytes: Vec<u8>)
        ensures
            bytes@ == minimal_be_bytes(self@),
    {
        let bytes = biguint_to_bytes_be(&self.bytes);
        proof {
            lemma_minimal_be_unique(bytes@);
        }
        bytes
    }

    /// The shortest little-endian byte sequence for this number; `[0]` for 0.
    pub fn to_bytes_le(&self) -> (bytes: Vec<u8>)
        ensures
            bytes@ == minimal_le_bytes(self@),
    {
        let bytes = biguint_bytes_le(self.bytes.as_slice());
        proof {
            lemma_minimal_le_unique(bytes@);
        }
        bytes
    }

    /// A second copy of this number.
    pub fn duplicate(&self) -> (n: Natural)
        ensures
            n@ == self@,
    {
        let bytes = self.bytes.clone();
        Natural { bytes }
    }

    /// `self + other`.
    pub fn add(&self, other: &Natural) -> (sum: Natural)
        ensures
            sum@ == self@ + other@,
    {
        Natural { bytes: biguint_add(&self.bytes, &other.bytes) }
    }

    /// `self - other`, for `other` no larger than `self`.
    pub fn sub(&self, other: &Natural) -> (difference: Natural)
        requires
            other@ <= self@,
        ensures
            difference@ == self@ - other@,
    {
        Natural { bytes: biguint_sub(&self.bytes, &other.bytes) }
    }

    /// `self * other`.
    pub fn mul(&self, other: &Natural) -> (product: Natural)
        ensures
            product@ == self@ * other@,
    {
        Natural { bytes: biguint_mul(&self.bytes, &other.bytes) }
    }

    /// `2 * self`.
    pub fn double(&self) -> (twice: Natural)
        ensures
            twice@ == 2 * self@,
    {
        Natural { bytes: biguint_shl_one(&self.bytes) }
    }

    /// `self` to the power `exponent`.
    pub fn pow(&self, exponent: u32) -> (power: Natural)
        ensures
            power@ == pow(self@ as int, exponent as nat),
    {
        Natural { bytes: biguint_pow(&self.bytes, exponent) }
    }

    /// Whether `self < other`.
    pub fn lt(&self, other: &Natural) -> (less: bool)
        ensures
            less == (self@ < other@),
    {
        biguint_lt(&self.bytes, &other.bytes)
    }

    /// Whether `self` and `other` are the same number.
    pub fn equals(&self, other: &Natural) -> (same: bool)
        ensures
            same == (self@ == other@),
    {
        biguint_eq(&self.bytes, &other.bytes)
    }

    /// The number of bytes of the shortest byte sequences for this number.
    pub fn byte_len(&self) -> (length: usize)
        ensures
            length == byte_length(self@),
    {
        let bytes = self.to_bytes_le();
        proof {
            lemma_minimal_le_bytes(self@);
        }
        bytes.len()
    }

    /// The number modulo `2^64`: its eight lowest bytes as a machine word.
    pub fn low_u64(&self) -> (low: u64)
        ensures
            low == self@ % 0x1_0000_0000_0000_0000,
    {
        let count: usize = if self.bytes.len() < 8 {
            self.bytes.len()
        } else {
            8
        };
        let mut low: u64 = 0;
        let mut place: usize = count;
        while place > 0
            invariant
                place <= count <= 8,
                count <= self.bytes@.len(),
                low == le_value(self.bytes@.subrange(place as int, count as int)),
                low < pow256((count - place) as nat),
            decreases place,
        {
            place = place - 1;
            proof {
                let tail = self.bytes@.subrange(place as int, count as int);
                assert(tail.drop_first() =~= self.bytes@.subrange(place + 1, count as int));
                lemma_pow256_values();
            }
            low = low * 256 + self.bytes[place] as u64;
        }
        proof {
            lemma_le_value_low_bytes(self.bytes@, count as nat);
            lemma_pow256_values();
            if count < 8 {
                assert(self.bytes@.take(count as int) =~= self.bytes@);
            }
        }
        low
    }

    /// The number as a machine word, if it fits in one.
    pub fn to_u64(&self) -> (word: Option<u64>)
        ensures
            self@ <= u64::MAX ==> word == Some(self@ as u64),
            self@ > u64::MAX ==> word is None,
    {
        proof {
            lemma_byte_length_u64(self@);
        }
        if self.byte_len() <= 8 {
            Some(self.low_u64())
        } else {
            None
        }
    }

    /// Whether `self` is 0.
    pub fn is_zero(&self) -> (zero: bool)
        ensures
            zero == (self@ == 0),
    {
        biguint_is_zero(&self.bytes)
    }
}

impl PartialEq for Natural {
    /// Two naturals are equal when they are the same number.
    fn eq(&self, other: &Natural) -> (same: bool) {
        self.equals(other)
    }
}

impl vstd::std_specs::cmp::PartialEqSpecImpl for Natural {
    open spec fn obeys_eq_spec() -> bool {
        true
    }

    open spec fn eq_spec(&self, other: &Natural) -> bool {
        self@ == other@
    }
}

/// `<BigUint as num_traits::Zero>::zero`, written as bytes. Trusted: the
/// bytes write 0.
#[verifier::external_body]
fn biguint_zero() -> (bytes: Vec<u8>)
    ensures
        le_value(bytes@) == 0,
{
    BigUint::zero().to_bytes_le()
}

/// `<BigUint as num_traits::One>::one`, written as bytes. Trusted: the bytes
/// write 1.
#[verifier::external_body]
fn biguint_one() -> (bytes: Vec<u8>)
    ensures
        le_value(bytes@) == 1,
{
    BigUint::one().to_bytes_le()
}

/// `<BigUint as From<u64>>::from`, written as bytes. Trusted: the bytes write
/// `value`.
#[verifier::external_body]
fn biguint_from_u64(value: u64) -> (bytes: Vec<u8>)
    ensures
        le_value(bytes@) == value,
{
    BigUint::from(value).to_bytes_le()
}

/// `BigUint::from_bytes_be`, written as bytes. Trusted: the number made is
/// the one that `source` writes most significant byte first.
#[verifier::external_body]
fn biguint_from_bytes_be(source: &[u8]) -> (bytes: Vec<u8>)
    ensures
        le_value(bytes@) == be_value(source@),
{
    BigUint::from_bytes_be(source).to_bytes_le()
}

/// `BigUint::to_bytes_be`. Trusted: the bytes returned write the same number
/// most significant byte first, there is at least one of them, and the first
/// is not zero unless it is the only one.
#[verifier::external_body]
fn biguint_to_bytes_be(source: &Vec<u8>) -> (bytes: Vec<u8>)
    ensures
        be_value(bytes@) == le_value(source@),
        is_minimal_be(bytes@),
{
    BigUint::from_bytes_le(source).to_bytes_be()
}

/// `BigUint::from_bytes_le`, and `BigUint::to_bytes_le` on what it made.
/// Trusted: the bytes returned write the same number as `source`, least
/// significant byte first, there is at least one of them, and the last is
/// not zero unless it is the only one.
#[verifier::external_body]
fn biguint_bytes_le(source: &[u8]) -> (bytes: Vec<u8>)
    ensures
        le_value(bytes@) == le_value(source@),
        is_minimal_le(bytes@),
{
    BigUint::from_bytes_le(source).to_bytes_le()
}

/// `<BigUint as Add>::add`. Trusted: the result is the sum.
#[verifier::external_body]
fn biguint_add(a: &Vec<u8>, b: &Vec<u8>) -> (bytes: Vec<u8>)
    ensures
        le_value(bytes@) == le_value(a@) + le_value(b@),
{
    (BigUint::from_bytes_le(a) + BigUint::from_bytes_le(b)).to_bytes_le()
}

/// `<BigUint as Sub>::sub`, which panics when the result would be negative.
/// Trusted: where it is not, the result is the difference.
#[verifier::external_body]
fn biguint_sub(a: &Vec<u8>, b: &Vec<u8>) -> (bytes: Vec<u8>)
    requires
        le_value(b@) <= le_value(a@),
    ensures
        le_value(bytes@) == le_value(a@) - le_value(b@),
{
    (BigUint::from_bytes_le(a) - BigUint::from_bytes_le(b)).to_bytes_le()
}

/// `<BigUint as Mul>::mul`. Trusted: the result is the product.
#[verifier::external_body]
fn biguint_mul(a: &Vec<u8>, b: &Vec<u8>) -> (bytes: Vec<u8>)
    ensures
        le_value(bytes@) == le_value(a@) * le_value(b@),
{
    (BigUint::from_bytes_le(a) * BigUint::from_bytes_le(b)).to_bytes_le()
}

/// `<BigUint as Shl<u32>>::shl` by one place. Trusted: the result is twice
/// the operand.
#[verifier::external_body]
fn biguint_shl_one(a: &Vec<u8>) -> (bytes: Vec<u8>)
    ensures
        le_value(bytes@) == 2 * le_value(a@),
{
    (BigUint::from_bytes_le(a) << 1u32).to_bytes_le()
}

/// `BigUint::pow`. Trusted: the result is the operand multiplied by itself
/// `exponent` times, 1 for an exponent of 0.
#[verifier::external_body]
fn biguint_pow(a: &Vec<u8>, exponent: u32) -> (bytes: Vec<u8>)
    ensures
        le_value(bytes@) == pow(le_value(a@) as int, exponent as nat),
{
    BigUint::from_bytes_le(a).pow(exponent).to_bytes_le()
}

/// `<BigUint as PartialOrd>::lt`. Trusted: it orders by the numbers' values.
#[verifier::external_body]
fn biguint_lt(a: &Vec<u8>, b: &Vec<u8>) -> (less: bool)
    ensures
        less == (le_value(a@) < le_value(b@)),
{
    BigUint::from_bytes_le(a) < BigUint::from_bytes_le(b)
}

/// `<BigUint as PartialEq>::eq`. Trusted: two `BigUint`s are equal exactly
/// when they are the same number.
#[verifier::external_body]
fn biguint_eq(a: &Vec<u8>, b: &Vec<u8>) -> (same: bool)
    ensures
        same == (le_value(a@) == le_value(b@)),
{
    BigUint::from_bytes_le(a) == BigUint::from_bytes_le(b)
}

/// `<BigUint as num_traits::Zero>::is_zero`. Trusted: it holds of 0 only.
#[verifier::external_body]
fn biguint_is_zero(a: &Vec<u8>) -> (zero: bool)
    ensures
        zero == (le_value(a@) == 0),
{
    BigUint::from_bytes_le(a).is_zero()
}

} // verus!
