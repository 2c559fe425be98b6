//! One instant of two-channel audio amplitude.

use vstd::prelude::*;

verus! {

/// A pair of channel amplitudes.
///
/// Each channel is carried as the bit pattern of a 32-bit IEEE-754 value, so
/// that a point can be stored, compared and handed on without loss.
#[derive(Clone, Copy, Debug, PartialEq, Eq, Structural)]
pub struct SamplePoint {
    /// Bit pattern of the first (left) channel.
    pub x: u32,
    /// Bit pattern of the second (right) channel.
    pub y: u32,
}

impl SamplePoint {
    /// Builds a point from the bit patterns of its two channels.
    pub fn new(x: u32, y: u32) -> (point: SamplePoint)
        ensures
            point == (SamplePoint { x, y }),
    {
        SamplePoint { x, y }
    }
}

} // verus!
