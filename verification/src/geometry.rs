//! Positions and orientations as the replication layer sees them.
//!
//! Nothing here computes with coordinates: a transform is read from one
//! process and handed unchanged to another.  Each component is therefore kept
//! as the 32-bit pattern of an IEEE-754 single-precision number, which makes
//! equality exact and the wire form obvious.

use vstd::prelude::*;

verus! {

/// Bit pattern of `0.0`.
pub const ZERO_BITS: u32 = 0;

/// Bit pattern of the single-precision number nearest to the sine, and to the
/// cosine, of an eighth of a turn.
pub const HALF_SQRT_2_BITS: u32 = 0x3f35_04f3;

/// A point or displacement in space, one bit pattern per axis.
#[derive(Clone, Copy, Debug, PartialEq, Eq)]
pub struct Vec3Bits {
    pub x: u32,
    pub y: u32,
    pub z: u32,
}

/// An orientation quaternion, one bit pattern per component.
#[derive(Clone, Copy, Debug, PartialEq, Eq)]
pub struct QuatBits {
    pub x: u32,
    pub y: u32,
    pub z: u32,
    pub w: u32,
}

impl Vec3Bits {
    /// The origin.
    pub open spec fn spec_zero() -> Vec3Bits {
        Vec3Bits { x: ZERO_BITS, y: ZERO_BITS, z: ZERO_BITS }
    }

    /// The origin.
    #[verifier::when_used_as_spec(spec_zero)]
    pub fn zero() -> (v: Vec3Bits)
        ensures
            v == Vec3Bits::spec_zero(),
    {
        Vec3Bits { x: ZERO_BITS, y: ZERO_BITS, z: ZERO_BITS }
    }
}

impl QuatBits {
    /// A quarter turn about the x axis: `(sin 45°, 0, 0, cos 45°)`.
    pub open spec fn spec_quarter_turn_x() -> QuatBits {
        QuatBits { x: HALF_SQRT_2_BITS, y: ZERO_BITS, z: ZERO_BITS, w: HALF_SQRT_2_BITS }
    }

    /// A quarter turn about the x axis, the orientation a fresh player is
    /// given.
    #[verifier::when_used_as_spec(spec_quarter_turn_x)]
    pub fn quarter_turn_x() -> (q: QuatBits)
        ensures
            q == QuatBits::spec_quarter_turn_x(),
    {
        QuatBits { x: HALF_SQRT_2_BITS, y: ZERO_BITS, z: ZERO_BITS, w: HALF_SQRT_2_BITS }
    }
}

} // verus!
