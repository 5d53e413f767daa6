//! Seismic intensity thresholds (JMA scale, 0 to 7).
use vstd::prelude::*;

verus! {

/// Highest intensity of the scale.
pub const MAX_INTENSITY: u8 = 7;

/// Whether `intensity` is a level of the scale.
pub fn validate_intensity(intensity: u8) -> (r: bool)
    ensures
        r == (intensity <= MAX_INTENSITY),
{
    intensity <= MAX_INTENSITY
}

} // verus!
