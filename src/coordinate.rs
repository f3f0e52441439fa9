use vstd::prelude::*;

verus! {

/// A two-dimensional coordinate.
///
/// Each component is kept as the IEEE 754 bit pattern of a 64-bit float, so the
/// collections can store and move coordinates without floating-point arithmetic.
#[derive(Clone, Copy, PartialEq, Eq, Structural, Debug)]
pub struct Coordinate2D {
    pub x_bits: u64,
    pub y_bits: u64,
}

impl Coordinate2D {
    /// A coordinate from the bit patterns of its two components.
    pub fn from_bits(x_bits: u64, y_bits: u64) -> (r: Self)
        ensures
            r.x_bits == x_bits,
            r.y_bits == y_bits,
    {
        Coordinate2D { x_bits, y_bits }
    }
}

} // verus!
