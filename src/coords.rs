//! Coordinates held as whole multiples of 1e-7 degree.
use vstd::prelude::*;

verus! {

/// One degree, in the unit of coordinates.
pub const DEGREE: i64 = 10_000_000;

/// Largest latitude, in 1e-7 degree.
pub const MAX_LATITUDE: i64 = 900_000_000;

/// Largest longitude, in 1e-7 degree.
pub const MAX_LONGITUDE: i64 = 1_800_000_000;

pub open spec fn valid_coordinates(lat: int, lon: int) -> bool {
    -MAX_LATITUDE <= lat <= MAX_LATITUDE && -MAX_LONGITUDE <= lon <= MAX_LONGITUDE
}

/// Whether (`lat`, `lon`) lies within [-90, 90] x [-180, 180] degrees.
pub fn validate_coordinates(lat: i64, lon: i64) -> (r: bool)
    ensures
        r == valid_coordinates(lat as int, lon as int),
{
    -MAX_LATITUDE <= lat && lat <= MAX_LATITUDE && -MAX_LONGITUDE <= lon && lon <= MAX_LONGITUDE
}

} // verus!
