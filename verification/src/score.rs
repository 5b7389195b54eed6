//! Scores: finite IEEE 754 binary64 numbers, held as integers.
//!
//! A binary64 bit pattern is a sign bit followed by a 63-bit magnitude, and
//! among finite numbers a larger magnitude is further from zero. Reading the
//! pattern as a signed magnitude therefore gives an integer, the key, that
//! orders finite numbers exactly as the numbers themselves are ordered, with
//! both zeros at key 0.

use vstd::prelude::*;

verus! {

/// The sign bit of a binary64 bit pattern.
pub const SIGN_BIT: u64 = 0x8000_0000_0000_0000;

/// The magnitude of infinity: all exponent bits set, fraction zero. Every
/// finite number has a smaller magnitude, every NaN a larger one.
pub const INFINITY_MAGNITUDE: u64 = 0x7FF0_0000_0000_0000;

/// Whether the sign bit of `bits` is set.
pub open spec fn is_negative(bits: u64) -> bool {
    bits >= SIGN_BIT
}

/// The pattern without its sign bit.
pub open spec fn magnitude(bits: u64) -> int {
    if bits >= SIGN_BIT {
        bits - SIGN_BIT
    } else {
        bits as int
    }
}

/// Whether `bits` is a finite number: neither an infinity nor a NaN.
pub open spec fn is_finite(bits: u64) -> bool {
    magnitude(bits) < INFINITY_MAGNITUDE
}

/// The key of a bit pattern: its magnitude, negated when the sign bit is set.
pub open spec fn key_of(bits: u64) -> int {
    if is_negative(bits) {
        -magnitude(bits)
    } else {
        magnitude(bits)
    }
}

/// The bit pattern of a key; zero is given the positive sign.
pub open spec fn bits_of(key: int) -> u64 {
    if key < 0 {
        (SIGN_BIT - key) as u64
    } else {
        key as u64
    }
}

/// The order of binary64 on finite bit patterns, stated case by case: the
/// two zeros are equal, a negative number is below a non-negative one, and
/// within one sign the magnitudes decide.
pub open spec fn binary64_less(a: u64, b: u64) -> bool {
    if magnitude(a) == 0 && magnitude(b) == 0 {
        false
    } else if is_negative(a) != is_negative(b) {
        is_negative(a)
    } else if is_negative(a) {
        magnitude(a) > magnitude(b)
    } else {
        magnitude(a) < magnitude(b)
    }
}

/// Equality of binary64 on finite bit patterns: the same pattern, or two
/// zeros.
pub open spec fn binary64_equal(a: u64, b: u64) -> bool {
    a == b || (magnitude(a) == 0 && magnitude(b) == 0)
}

/// A finite score.
#[derive(Clone, Copy, Debug, PartialEq, Eq, Structural)]
pub struct Score {
    key: i64,
}

impl Score {
    #[verifier::type_invariant]
    spec fn in_range(self) -> bool {
        -INFINITY_MAGNITUDE < self.key < INFINITY_MAGNITUDE
    }

    /// The integer that orders this score.
    pub closed spec fn key(self) -> int {
        self.key as int
    }

    /// Reads a binary64 bit pattern. Infinities and NaNs are no scores.
    pub fn from_bits(bits: u64) -> (score: Option<Score>)
        ensures
            score is Some <==> is_finite(bits),
            score matches Some(s) ==> s.key() == key_of(bits),
    {
        if bits >= SIGN_BIT {
            let magnitude: u64 = bits - SIGN_BIT;
            if magnitude < INFINITY_MAGNITUDE {
                Some(Score { key: -(magnitude as i64) })
            } else {
                None
            }
        } else if bits < INFINITY_MAGNITUDE {
            Some(Score { key: bits as i64 })
        } else {
            None
        }
    }

    /// The binary64 bit pattern of this score.
    pub fn to_bits(&self) -> (bits: u64)
        ensures
            bits == bits_of(self.key()),
            is_finite(bits),
            key_of(bits) == self.key(),
    {
        proof {
            use_type_invariant(self);
        }
        if self.key < 0 {
            let magnitude: u64 = (-self.key) as u64;
            SIGN_BIT + magnitude
        } else {
            self.key as u64
        }
    }

    /// Whether this score is strictly higher than `other`.
    pub fn exceeds(&self, other: &Score) -> (higher: bool)
        ensures
            higher == (self.key() > other.key()),
    {
        self.key > other.key
    }
}

/// Two scores with the same key are the same score.
pub proof fn lemma_key_determines_score(a: Score, b: Score)
    requires
        a.key() == b.key(),
    ensures
        a == b,
{
}

/// Keys order finite bit patterns as binary64 orders the numbers.
pub proof fn lemma_key_order_is_binary64_order(a: u64, b: u64)
    requires
        is_finite(a),
        is_finite(b),
    ensures
        key_of(a) < key_of(b) <==> binary64_less(a, b),
        key_of(a) == key_of(b) <==> binary64_equal(a, b),
{
}

/// Reading the pattern of a key gives the key back.
pub proof fn lemma_key_round_trip(key: int)
    requires
        -INFINITY_MAGNITUDE < key < INFINITY_MAGNITUDE,
    ensures
        is_finite(bits_of(key)),
        key_of(bits_of(key)) == key,
{
}

/// Writing the key of a finite pattern gives the pattern back, except that
/// negative zero comes back as positive zero.
pub proof fn lemma_bits_round_trip(bits: u64)
    requires
        is_finite(bits),
    ensures
        bits_of(key_of(bits)) == (if bits == SIGN_BIT { 0 } else { bits }),
{
}

} // verus!
