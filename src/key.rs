//! Order-preserving integer keys for IEEE-754 double bit patterns.
//!
//! A negative number (sign bit set) is mapped to the complement of its
//! bits, a non-negative one to its bits with the sign bit set. Unsigned
//! comparison of keys then follows the numeric order of the doubles, with
//! `-0.0` just below `+0.0`, the same total order as `f64::total_cmp`.
use vstd::prelude::*;

verus! {

pub const SIGN_BIT: u64 = 0x8000_0000_0000_0000;

/// The key of `+0.0`.
pub const ZERO_KEY: u64 = 0x8000_0000_0000_0000;

/// The key of `-0.0`, just below `ZERO_KEY`.
pub const NEG_ZERO_KEY: u64 = 0x7FFF_FFFF_FFFF_FFFF;

/// The key with `-0.0` taken as `+0.0`: IEEE comparison holds the two
/// zeros equal, and so does comparison of these keys.
pub open spec fn zero_as_one(key: u64) -> u64 {
    if key == NEG_ZERO_KEY { ZERO_KEY } else { key }
}

/// Takes the key of `-0.0` to the key of `+0.0`.
pub fn merge_zeros(key: u64) -> (r: u64)
    ensures
        r == zero_as_one(key),
{
    if key == NEG_ZERO_KEY { ZERO_KEY } else { key }
}

/// The key of positive infinity. Only the keys of NaNs with the sign bit
/// clear lie above it.
pub const INFINITY_KEY: u64 = 0xFFF0_0000_0000_0000;

/// The key of negative infinity. Only the keys of NaNs with the sign bit
/// set lie below it.
pub const NEG_INFINITY_KEY: u64 = 0x000F_FFFF_FFFF_FFFF;

/// `key` is the key of a NaN: a bit pattern whose exponent bits are all
/// set and whose mantissa is not zero.
pub open spec fn is_nan_key(key: u64) -> bool {
    key > INFINITY_KEY || key < NEG_INFINITY_KEY
}

/// Whether `key` is the key of a NaN.
pub fn nan_key(key: u64) -> (r: bool)
    ensures
        r == is_nan_key(key),
{
    key > INFINITY_KEY || key < NEG_INFINITY_KEY
}

/// The key of a bit pattern.
pub open spec fn key_of(bits: u64) -> u64 {
    if bits & SIGN_BIT != 0 {
        !bits
    } else {
        bits | SIGN_BIT
    }
}

/// The bit pattern of a key.
pub open spec fn bits_of(key: u64) -> u64 {
    if key & SIGN_BIT != 0 {
        key & !SIGN_BIT
    } else {
        !key
    }
}

/// Turns the bit pattern of a double into its order key.
pub fn order_key(bits: u64) -> (r: u64)
    ensures
        r == key_of(bits),
{
    if bits & SIGN_BIT != 0 {
        !bits
    } else {
        bits | SIGN_BIT
    }
}

/// Turns an order key back into the bit pattern of its double.
pub fn key_bits(key: u64) -> (r: u64)
    ensures
        r == bits_of(key),
{
    if key & SIGN_BIT != 0 {
        key & !SIGN_BIT
    } else {
        !key
    }
}

/// Taking the key of a bit pattern and then its bits gives the pattern back.
pub proof fn lemma_bits_of_key_of(bits: u64)
    ensures
        bits_of(key_of(bits)) == bits,
{
    assert(bits & 0x8000_0000_0000_0000u64 != 0 ==> (!bits) & 0x8000_0000_0000_0000u64 == 0
        && !(!bits) == bits) by (bit_vector);
    assert(bits & 0x8000_0000_0000_0000u64 == 0 ==> (bits | 0x8000_0000_0000_0000u64)
        & 0x8000_0000_0000_0000u64 != 0 && (bits | 0x8000_0000_0000_0000u64)
        & !0x8000_0000_0000_0000u64 == bits) by (bit_vector);
}

/// Taking the bits of a key and then their key gives the key back.
pub proof fn lemma_key_of_bits_of(key: u64)
    ensures
        key_of(bits_of(key)) == key,
{
    assert(key & 0x8000_0000_0000_0000u64 != 0 ==> (key & !0x8000_0000_0000_0000u64)
        & 0x8000_0000_0000_0000u64 == 0 && ((key & !0x8000_0000_0000_0000u64)
        | 0x8000_0000_0000_0000u64) == key) by (bit_vector);
    assert(key & 0x8000_0000_0000_0000u64 == 0 ==> (!key) & 0x8000_0000_0000_0000u64 != 0
        && !(!key) == key) by (bit_vector);
}

/// The keys of NaNs are exactly the keys of bit patterns with all exponent
/// bits set and a non-zero mantissa.
pub proof fn lemma_nan_keys(bits: u64)
    ensures
        is_nan_key(key_of(bits)) <==> (bits & 0x7FF0_0000_0000_0000 == 0x7FF0_0000_0000_0000 && bits
            & 0x000F_FFFF_FFFF_FFFF != 0),
{
    assert(bits & 0x8000_0000_0000_0000u64 != 0 ==> ((!bits > 0xFFF0_0000_0000_0000u64 || !bits
        < 0x000F_FFFF_FFFF_FFFFu64) <==> (bits & 0x7FF0_0000_0000_0000u64 == 0x7FF0_0000_0000_0000u64
        && bits & 0x000F_FFFF_FFFF_FFFFu64 != 0))) by (bit_vector);
    assert(bits & 0x8000_0000_0000_0000u64 == 0 ==> (((bits | 0x8000_0000_0000_0000u64)
        > 0xFFF0_0000_0000_0000u64 || (bits | 0x8000_0000_0000_0000u64) < 0x000F_FFFF_FFFF_FFFFu64)
        <==> (bits & 0x7FF0_0000_0000_0000u64 == 0x7FF0_0000_0000_0000u64 && bits
        & 0x000F_FFFF_FFFF_FFFFu64 != 0))) by (bit_vector);
}

/// Every non-negative double (sign bit clear) is keyed above every negative one.
pub proof fn lemma_sign_order(neg: u64, pos: u64)
    requires
        neg & SIGN_BIT != 0,
        pos & SIGN_BIT == 0,
    ensures
        key_of(neg) < key_of(pos),
{
    assert(neg & 0x8000_0000_0000_0000u64 != 0 && pos & 0x8000_0000_0000_0000u64 == 0
        ==> !neg < (pos | 0x8000_0000_0000_0000u64)) by (bit_vector);
}

/// Among non-negative doubles a larger bit pattern (a larger number) has a
/// larger key; among negative ones a larger pattern (a more negative
/// number) has a smaller key.
pub proof fn lemma_magnitude_order(a: u64, b: u64)
    requires
        a < b,
    ensures
        a & SIGN_BIT == 0 && b & SIGN_BIT == 0 ==> key_of(a) < key_of(b),
        a & SIGN_BIT != 0 && b & SIGN_BIT != 0 ==> key_of(b) < key_of(a),
{
    assert(a < b && a & 0x8000_0000_0000_0000u64 == 0 && b & 0x8000_0000_0000_0000u64 == 0
        ==> (a | 0x8000_0000_0000_0000u64) < (b | 0x8000_0000_0000_0000u64)) by (bit_vector);
    assert(a < b ==> !b < !a) by (bit_vector);
}

} // verus!
