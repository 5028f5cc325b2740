//! Vertex positions, held by the bit patterns of their coordinates.

use vstd::prelude::*;

verus! {

/// The sign bit of a single-precision bit pattern.
pub const SIGN_BIT: u32 = 0x8000_0000;

/// The bit pattern of positive infinity: every larger magnitude is a NaN.
pub const INFINITY_BITS: u32 = 0x7f80_0000;

/// A bit pattern with its sign bit cleared.
pub open spec fn magnitude(bits: u32) -> int {
    if bits >= SIGN_BIT {
        bits - SIGN_BIT
    } else {
        bits as int
    }
}

/// The pattern encodes a NaN: exponent all ones and a non-zero fraction.
pub open spec fn is_nan(bits: u32) -> bool {
    magnitude(bits) > INFINITY_BITS
}

/// The pattern encodes positive or negative zero.
pub open spec fn is_zero(bits: u32) -> bool {
    magnitude(bits) == 0
}

/// Numeric equality of two single-precision values, decided on their bit
/// patterns: a NaN equals nothing, the two zeros equal each other, and any
/// other two values are equal exactly when their patterns are.
pub open spec fn coordinates_equal(a: u32, b: u32) -> bool {
    &&& !is_nan(a)
    &&& !is_nan(b)
    &&& (a == b || (is_zero(a) && is_zero(b)))
}

/// A point in space. Each field is the bit pattern of one coordinate.
#[derive(Clone, Copy, Debug, PartialEq, Eq)]
pub struct Position {
    pub x: u32,
    pub y: u32,
    pub z: u32,
}

/// Two positions are the same point: all three coordinates are numerically
/// equal.
pub open spec fn coincident(p: Position, q: Position) -> bool {
    &&& coordinates_equal(p.x, q.x)
    &&& coordinates_equal(p.y, q.y)
    &&& coordinates_equal(p.z, q.z)
}

fn clear_sign(bits: u32) -> (m: u32)
    ensures
        m == magnitude(bits),
{
    if bits >= SIGN_BIT {
        bits - SIGN_BIT
    } else {
        bits
    }
}

/// Decides numeric equality of two coordinates from their bit patterns.
pub fn coordinates_are_equal(a: u32, b: u32) -> (r: bool)
    ensures
        r == coordinates_equal(a, b),
{
    let ma: u32 = clear_sign(a);
    let mb: u32 = clear_sign(b);
    ma <= INFINITY_BITS && mb <= INFINITY_BITS && (a == b || (ma == 0 && mb == 0))
}

impl Position {
    /// Decides whether `self` and `other` are the same point.
    pub fn coincides(&self, other: &Position) -> (r: bool)
        ensures
            r == coincident(*self, *other),
    {
        coordinates_are_equal(self.x, other.x) && coordinates_are_equal(self.y, other.y)
            && coordinates_are_equal(self.z, other.z)
    }
}

} // verus!
