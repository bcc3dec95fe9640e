//! Colors as IEEE-754 bit patterns.
//!
//! The kernel reads colors as 32-bit floats; the host carries each channel as
//! the bit pattern of that float, so the loader's logic stays on plain
//! integers while the bytes written to the GPU are identical.

use vstd::prelude::*;

verus! {

/// The largest bit pattern of an IEEE-754 binary32 value that is greater
/// than zero: positive infinity. The patterns `1 ..= 0x7f80_0000` are exactly
/// the encodings of values strictly greater than zero (positive subnormals,
/// normals and infinity); `0` and `0x8000_0000` encode the two zeros, larger
/// patterns carry the sign bit, and `0x7f80_0001 ..= 0x7fff_ffff` are NaNs,
/// none of which compares greater than zero.
pub const CHANNEL_POSITIVE_MAX: u32 = 0x7f80_0000;

/// True when the bit pattern encodes a binary32 value strictly greater
/// than zero.
pub open spec fn channel_positive(bits: u32) -> bool {
    1 <= bits && bits <= CHANNEL_POSITIVE_MAX
}

/// An rgb color, each channel the bit pattern of a binary32 value.
#[derive(Clone, Copy, Debug, PartialEq, Eq, Structural)]
pub struct Color {
    pub r: u32,
    pub g: u32,
    pub b: u32,
}

/// The all-zero color: every channel encodes zero.
pub open spec fn black() -> Color {
    Color { r: 0, g: 0, b: 0 }
}

/// True when any channel of `c` encodes a value greater than zero. A mesh
/// whose ambient color satisfies this is a light source.
pub open spec fn spec_emits(c: Color) -> bool {
    channel_positive(c.r) || channel_positive(c.g) || channel_positive(c.b)
}

impl Color {
    /// The all-zero color, used for the sentinel material record.
    pub fn zero() -> (c: Color)
        ensures
            c == black(),
    {
        Color { r: 0, g: 0, b: 0 }
    }

    /// Whether any channel encodes a value greater than zero.
    pub fn emits(&self) -> (r: bool)
        ensures
            r == spec_emits(*self),
    {
        (1 <= self.r && self.r <= CHANNEL_POSITIVE_MAX)
            || (1 <= self.g && self.g <= CHANNEL_POSITIVE_MAX)
            || (1 <= self.b && self.b <= CHANNEL_POSITIVE_MAX)
    }
}

} // verus!
