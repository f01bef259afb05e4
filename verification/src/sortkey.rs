//! Ordering keys for IEEE-754 doubles.
//!
//! A double that is not a NaN is a sign and a 63-bit magnitude, and doubles
//! are ordered as those signed magnitudes are: the two zeros are equal, and
//! among values of one sign the larger magnitude is further from zero. The
//! key of a double is its signed magnitude moved up by 2^63, so that it fits
//! an unsigned integer: `a < b` as doubles exactly when `key(a) < key(b)`,
//! and `a == b` exactly when the keys are equal.
//!
//! Callers convert with the double's bit pattern on their side; everything
//! here is integer arithmetic.

use vstd::prelude::*;

verus! {

/// The sign bit of a double's bit pattern.
pub const SIGN_BIT: u64 = 0x8000_0000_0000_0000;

/// The bit pattern of positive infinity, the largest magnitude that is not a
/// NaN.
pub const INFINITY_BITS: u64 = 0x7FF0_0000_0000_0000;

/// The key of zero, of either sign.
pub const ZERO_KEY: u64 = 0x8000_0000_0000_0000;

/// The key of one.
pub const ONE_KEY: u64 = 0xBFF0_0000_0000_0000;

/// The bit pattern without its sign.
pub open spec fn magnitude(bits: u64) -> int {
    if bits < SIGN_BIT {
        bits as int
    } else {
        bits - SIGN_BIT
    }
}

/// Whether the bit pattern is a NaN: its magnitude lies beyond infinity.
pub open spec fn is_nan(bits: u64) -> bool {
    magnitude(bits) > INFINITY_BITS
}

/// The magnitude with the sign applied. Both zeros give 0.
pub open spec fn signed_magnitude(bits: u64) -> int {
    if bits < SIGN_BIT {
        bits as int
    } else {
        -(bits - SIGN_BIT)
    }
}

/// The key of a bit pattern.
pub open spec fn key_of(bits: u64) -> int {
    SIGN_BIT + signed_magnitude(bits)
}

/// Whether `key` is the key of some double that is not a NaN.
pub open spec fn is_key(key: u64) -> bool {
    SIGN_BIT - INFINITY_BITS <= key <= SIGN_BIT + INFINITY_BITS
}

/// The bit pattern that a key stands for. Zero comes back with a clear sign.
pub open spec fn bits_of(key: u64) -> int {
    if key >= SIGN_BIT {
        key - SIGN_BIT
    } else {
        SIGN_BIT + (SIGN_BIT - key)
    }
}

/// The key of the double with the given bit pattern, or `None` for a NaN,
/// which has no place in the order.
pub fn to_key(bits: u64) -> (key: Option<u64>)
    ensures
        key is None <==> is_nan(bits),
        key matches Some(k) ==> k == key_of(bits) && is_key(k),
{
    if bits < SIGN_BIT {
        if bits > INFINITY_BITS {
            None
        } else {
            Some(SIGN_BIT + bits)
        }
    } else {
        let magnitude: u64 = bits - SIGN_BIT;
        if magnitude > INFINITY_BITS {
            None
        } else {
            Some(SIGN_BIT - magnitude)
        }
    }
}

/// The bit pattern of the double with the given key, or `None` where no
/// double has that key.
pub fn from_key(key: u64) -> (bits: Option<u64>)
    ensures
        bits is Some <==> is_key(key),
        bits matches Some(b) ==> b == bits_of(key) && !is_nan(b) && key_of(b) == key,
{
    if key < SIGN_BIT - INFINITY_BITS || key > SIGN_BIT + INFINITY_BITS {
        None
    } else if key >= SIGN_BIT {
        Some(key - SIGN_BIT)
    } else {
        Some(SIGN_BIT + (SIGN_BIT - key))
    }
}

/// Keys are ordered as signed magnitudes are, and two bit patterns share a
/// key only when they are the same or the two zeros.
pub proof fn lemma_key_order(a: u64, b: u64)
    ensures
        key_of(a) < key_of(b) <==> signed_magnitude(a) < signed_magnitude(b),
        key_of(a) == key_of(b) <==> a == b || (magnitude(a) == 0 && magnitude(b) == 0),
{
}

/// Converting to a key and back gives the bit pattern again, but for negative
/// zero, which comes back as zero.
pub proof fn lemma_key_round_trip(bits: u64)
    requires
        !is_nan(bits),
    ensures
        0 <= key_of(bits) <= u64::MAX,
        is_key(key_of(bits) as u64),
        bits_of(key_of(bits) as u64) == if bits == SIGN_BIT {
            0
        } else {
            bits as int
        },
{
}

} // verus!
