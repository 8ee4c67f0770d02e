//! Natural numbers of any size, as digits to the base `2^32`, lowest digit first.
//! The arithmetic on them is num-bigint's.
use vstd::arithmetic::power2::pow2;
use vstd::prelude::*;

verus! {

/// The number that digits stand for.
pub open spec fn digits_value(d: Seq<u32>) -> nat
    decreases d.len(),
{
    if d.len() == 0 {
        0
    } else {
        d[0] as nat + 0x1_0000_0000 * digits_value(d.drop_first())
    }
}

/// The number that bytes stand for, lowest byte first.
pub open spec fn bytes_value(b: Seq<u8>) -> nat
    decreases b.len(),
{
    if b.len() == 0 {
        0
    } else {
        b[0] as nat + 256 * bytes_value(b.drop_first())
    }
}

/// A text without the plus sign that it may begin with.
pub open spec fn unsigned(text: Seq<u8>) -> Seq<u8> {
    if text.len() > 0 && text[0] == 0x2b && !(text.len() > 1 && text[1] == 0x2b) {
        text.drop_first()
    } else {
        text
    }
}

/// Decimal digits, with underscores anywhere but at the beginning.
pub open spec fn is_decimal(s: Seq<u8>) -> bool {
    &&& s.len() > 0
    &&& s[0] != 0x5f
    &&& forall|i: int| 0 <= i < s.len() ==> 0x30 <= #[trigger] s[i] <= 0x39 || s[i] == 0x5f
}

/// The number that digits stand for, highest digit first; underscores do not count.
pub open spec fn decimal_value(s: Seq<u8>) -> nat
    decreases s.len(),
{
    if s.len() == 0 {
        0
    } else if s.last() == 0x5f {
        decimal_value(s.drop_last())
    } else {
        (10 * decimal_value(s.drop_last()) + (s.last() - 0x30)) as nat
    }
}

/// The number that a text stands for in decimal notation, if it does.
pub open spec fn decimal_number(text: Seq<u8>) -> Option<nat> {
    if is_decimal(unsigned(text)) {
        Some(decimal_value(unsigned(text)))
    } else {
        None
    }
}

/// `BigUint::parse_bytes` of num-bigint, to the base ten: after a plus sign that
/// may stand there, digits that may be kept apart by underscores, and their value;
/// none for any other text.
#[verifier::external_body]
fn big_parse(text: &[u8]) -> (r: Option<Vec<u32>>)
    ensures
        r is Some <==> decimal_number(text@) is Some,
        r matches Some(d) ==> decimal_number(text@) == Some(digits_value(d@)),
{
    num_bigint::BigUint::parse_bytes(text, 10).map(|n| n.to_u32_digits())
}

/// `BigUint::from_bytes_le` of num-bigint: the number that the bytes stand for.
#[verifier::external_body]
pub(crate) fn big_from_bytes_le(bytes: &[u8]) -> (r: Vec<u32>)
    ensures
        digits_value(r@) == bytes_value(bytes@),
{
    num_bigint::BigUint::from_bytes_le(bytes).to_u32_digits()
}

/// Addition of num-bigint's `BigUint`.
#[verifier::external_body]
pub(crate) fn big_add(a: &[u32], b: &[u32]) -> (r: Vec<u32>)
    ensures
        digits_value(r@) == digits_value(a@) + digits_value(b@),
{
    (num_bigint::BigUint::from_slice(a) + num_bigint::BigUint::from_slice(b)).to_u32_digits()
}

/// Multiplication of num-bigint's `BigUint`.
#[verifier::external_body]
pub(crate) fn big_mul(a: &[u32], b: &[u32]) -> (r: Vec<u32>)
    ensures
        digits_value(r@) == digits_value(a@) * digits_value(b@),
{
    (num_bigint::BigUint::from_slice(a) * num_bigint::BigUint::from_slice(b)).to_u32_digits()
}

/// The remainder of num-bigint's `BigUint`, which there is only of a division by
/// a number that is not zero.
#[verifier::external_body]
pub(crate) fn big_rem(a: &[u32], b: &[u32]) -> (r: Vec<u32>)
    requires
        digits_value(b@) != 0,
    ensures
        digits_value(r@) == digits_value(a@) % digits_value(b@),
{
    (num_bigint::BigUint::from_slice(a) % num_bigint::BigUint::from_slice(b)).to_u32_digits()
}

/// The shift to the left of num-bigint's `BigUint`.
#[verifier::external_body]
pub(crate) fn big_shl(a: &[u32], bits: u32) -> (r: Vec<u32>)
    ensures
        digits_value(r@) == digits_value(a@) * pow2(bits as nat),
{
    (num_bigint::BigUint::from_slice(a) << bits).to_u32_digits()
}

/// The shift to the right of num-bigint's `BigUint`.
#[verifier::external_body]
pub(crate) fn big_shr(a: &[u32], bits: u32) -> (r: Vec<u32>)
    ensures
        digits_value(r@) == digits_value(a@) / pow2(bits as nat),
{
    (num_bigint::BigUint::from_slice(a) >> bits).to_u32_digits()
}

/// Equality of num-bigint's `BigUint`.
#[verifier::external_body]
pub(crate) fn big_equal(a: &[u32], b: &[u32]) -> (r: bool)
    ensures
        r == (digits_value(a@) == digits_value(b@)),
{
    num_bigint::BigUint::from_slice(a) == num_bigint::BigUint::from_slice(b)
}

/// The digits of the number that a text stands for in decimal notation.
pub fn parse_number(text: &[u8]) -> (r: Option<Vec<u32>>)
    ensures
        r is Some <==> decimal_number(text@) is Some,
        r matches Some(d) ==> decimal_number(text@) == Some(digits_value(d@)),
{
    big_parse(text)
}

/// The lowest digit, zero if there is none.
pub fn low_digit(d: &[u32]) -> (r: u32)
    ensures
        r as nat == digits_value(d@) % 0x1_0000_0000,
{
    if d.len() == 0 {
        0
    } else {
        proof {
            let rest = digits_value(d@.drop_first());
            assert((d@[0] as nat + 0x1_0000_0000 * rest) % 0x1_0000_0000 == d@[0] as nat);
        }
        d[0]
    }
}

/// The digits of a 64-bit number.
pub fn digits_of_u64(n: u64) -> (r: Vec<u32>)
    ensures
        digits_value(r@) == n,
{
    let lo: u32 = (n % 0x1_0000_0000) as u32;
    let hi: u32 = (n / 0x1_0000_0000) as u32;
    let r: Vec<u32> = vec![lo, hi];
    proof {
        let t = r@.drop_first();
        assert(t =~= seq![hi]);
        assert(t.drop_first() =~= Seq::<u32>::empty());
        assert(digits_value(t.drop_first()) == 0);
        assert(digits_value(t) == hi as nat + 0x1_0000_0000 * 0);
        assert(digits_value(r@) == lo as nat + 0x1_0000_0000 * digits_value(t));
    }
    r
}

} // verus!
