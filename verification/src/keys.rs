//! Ordered keys for doubles, made from their bit patterns.
//!
//! A double is a sign bit and 63 bits of magnitude. Among doubles that are
//! numbers, a larger magnitude is farther from zero, so sign and magnitude
//! together say where a double stands among all of them. The keys are that
//! place as an integer; the two zeros, which are equal as doubles, have the
//! same key.

use vstd::prelude::*;

verus! {

/// The sign bit of a double.
pub const SIGN: u64 = 0x8000_0000_0000_0000;

/// Whether the sign bit is set.
pub open spec fn negative(bits: u64) -> bool {
    bits >= SIGN
}

/// The bits without the sign bit.
pub open spec fn magnitude(bits: u64) -> int {
    if bits >= SIGN {
        bits - SIGN
    } else {
        bits as int
    }
}

/// Whether the bits are those of no number at all.
pub open spec fn is_nan(bits: u64) -> bool {
    magnitude(bits) > 0x7FF0_0000_0000_0000
}

/// Whether the double `a` is less than the double `b`, where both are
/// numbers: by sign first, then by magnitude, and the two zeros are equal.
pub open spec fn less(a: u64, b: u64) -> bool {
    if negative(a) {
        if negative(b) {
            magnitude(a) > magnitude(b)
        } else {
            magnitude(a) > 0 || magnitude(b) > 0
        }
    } else {
        !negative(b) && magnitude(a) < magnitude(b)
    }
}

/// Whether the doubles `a` and `b`, both numbers, are equal: they have the
/// same bits, or both are zero.
pub open spec fn same(a: u64, b: u64) -> bool {
    a == b || (magnitude(a) == 0 && magnitude(b) == 0)
}

/// The place of a double among all doubles: its magnitude, below zero for
/// a double with the sign bit.
pub open spec fn ordinal(bits: u64) -> int {
    if negative(bits) {
        -magnitude(bits)
    } else {
        magnitude(bits)
    }
}

/// The key of a coordinate.
pub open spec fn spec_coordinate_key(bits: u64) -> i64 {
    ordinal(bits) as i64
}

/// The key of a distance.
pub open spec fn spec_distance_key(bits: u64) -> u64 {
    (ordinal(bits) + SIGN) as u64
}

/// The bits of the coordinate with this key. The least key of all belongs
/// to no double and gives the bits of the key above it.
pub open spec fn spec_coordinate_bits(key: i64) -> u64 {
    if key >= 0 {
        key as u64
    } else if key == i64::MIN {
        u64::MAX
    } else {
        (SIGN - key) as u64
    }
}

/// The bits of the distance with this key. The key 0 belongs to no double
/// and gives the bits of the key 1.
pub open spec fn spec_distance_bits(key: u64) -> u64 {
    if key >= SIGN {
        (key - SIGN) as u64
    } else if key == 0 {
        u64::MAX
    } else {
        (SIGN + (SIGN - key)) as u64
    }
}

/// The keys keep the order of the doubles: a double is less than another
/// exactly if its key is less, and equal to it exactly if its key is equal.
pub proof fn lemma_keys_keep_order(a: u64, b: u64)
    ensures
        spec_coordinate_key(a) < spec_coordinate_key(b) <==> less(a, b),
        spec_coordinate_key(a) == spec_coordinate_key(b) <==> same(a, b),
        spec_distance_key(a) < spec_distance_key(b) <==> less(a, b),
        spec_distance_key(a) == spec_distance_key(b) <==> same(a, b),
{
}

/// A double comes back from its key, but for the zero with the sign bit,
/// which comes back as the zero without it.
pub proof fn lemma_bits_of_key(bits: u64)
    ensures
        bits != SIGN ==> spec_coordinate_bits(spec_coordinate_key(bits)) == bits,
        bits != SIGN ==> spec_distance_bits(spec_distance_key(bits)) == bits,
        spec_coordinate_bits(spec_coordinate_key(SIGN)) == 0,
        spec_distance_bits(spec_distance_key(SIGN)) == 0,
{
}

/// A key comes back from its double, but for the one key of each kind that
/// belongs to no double.
pub proof fn lemma_key_of_bits(coordinate: i64, distance: u64)
    ensures
        coordinate != i64::MIN ==> spec_coordinate_key(spec_coordinate_bits(coordinate))
            == coordinate,
        distance != 0 ==> spec_distance_key(spec_distance_bits(distance)) == distance,
{
}

/// The key of the coordinate with these bits.
pub fn coordinate_key(bits: u64) -> (key: i64)
    ensures
        key == spec_coordinate_key(bits),
{
    if bits >= SIGN {
        0 - ((bits - SIGN) as i64)
    } else {
        bits as i64
    }
}

/// The bits of the coordinate with this key.
pub fn coordinate_bits(key: i64) -> (bits: u64)
    ensures
        bits == spec_coordinate_bits(key),
{
    if key >= 0 {
        key as u64
    } else if key == i64::MIN {
        u64::MAX
    } else {
        SIGN + ((0 - key) as u64)
    }
}

/// The key of the distance with these bits.
pub fn distance_key(bits: u64) -> (key: u64)
    ensures
        key == spec_distance_key(bits),
{
    if bits >= SIGN {
        SIGN - (bits - SIGN)
    } else {
        SIGN + bits
    }
}

/// The bits of the distance with this key.
pub fn distance_bits(key: u64) -> (bits: u64)
    ensures
        bits == spec_distance_bits(key),
{
    if key >= SIGN {
        key - SIGN
    } else if key == 0 {
        u64::MAX
    } else {
        SIGN + (SIGN - key)
    }
}

} // verus!
