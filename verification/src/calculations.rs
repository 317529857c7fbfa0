use crate::record::Record;
use vstd::prelude::*;

verus! {

/// Computed geometry for one record, as plain values: the decimal display
/// text of the distance in meters and of the compass bearing in degrees,
/// plus an order-preserving integer key for the distance, used by the sort.
pub struct Geometry {
    pub distance: String,
    pub angle: String,
    pub distance_key: u64,
}

impl Record {
    /// Stores the computed geometry into the record's mutable fields and
    /// leaves every other field unchanged.  The pipeline invokes this exactly
    /// once per record, before sorting or rendering.
    pub fn set_angle_direction(&mut self, geometry: Geometry)
        ensures
            final(self).distance@ == geometry.distance@,
            final(self).angle@ == geometry.angle@,
            final(self).distance_key == geometry.distance_key,
            final(self).city == old(self).city,
            final(self).street == old(self).street,
            final(self).street_number == old(self).street_number,
            final(self).zipcode == old(self).zipcode,
            final(self).urban_unit == old(self).urban_unit,
            final(self).old_unit == old(self).old_unit,
            final(self).district == old(self).district,
            final(self).latitude == old(self).latitude,
            final(self).longitude == old(self).longitude,
    {
        self.distance = geometry.distance;
        self.angle = geometry.angle;
        self.distance_key = geometry.distance_key;
    }
}

/// How a candidate bearing angle, as delivered by the arc cosine in
/// `[0, 180]` degrees, is corrected into the compass range once the
/// hemisphere and direction of travel are known.
#[derive(Clone, Copy, Debug, PartialEq, Eq, Structural)]
pub enum BearingCorrection {
    /// Use the angle as it is.
    Keep,
    /// Replace the angle `x` by `180 - x`.
    MirrorHalf,
    /// Replace the angle `x` by `360 - x`.
    MirrorFull,
    /// Replace the angle `x` by `x + 180`.
    ShiftHalf,
}

/// The corrected angle, on ideal (unrounded) degree values.
pub open spec fn corrected_degrees(c: BearingCorrection, x: int) -> int {
    match c {
        BearingCorrection::Keep => x,
        BearingCorrection::MirrorHalf => 180 - x,
        BearingCorrection::MirrorFull => 360 - x,
        BearingCorrection::ShiftHalf => x + 180,
    }
}

/// The correction applied to `alpha`, the candidate bearing relative to the
/// reference point.  `eastward` is the eastward test (the reference
/// longitude is at most the target longitude); `reference_lat_negative`
/// says whether the reference latitude is south of the equator.
pub open spec fn spec_alpha_correction(eastward: bool, reference_lat_negative: bool) -> BearingCorrection {
    if eastward {
        if reference_lat_negative {
            BearingCorrection::MirrorHalf
        } else {
            BearingCorrection::Keep
        }
    } else {
        if reference_lat_negative {
            BearingCorrection::ShiftHalf
        } else {
            BearingCorrection::MirrorFull
        }
    }
}

/// The correction applied to `beta`, the candidate bearing relative to the
/// target point.  `target_lat_nonnegative` says whether the target latitude
/// is on or north of the equator.
pub open spec fn spec_beta_correction(eastward: bool, target_lat_nonnegative: bool) -> BearingCorrection {
    if eastward {
        if target_lat_nonnegative {
            BearingCorrection::MirrorHalf
        } else {
            BearingCorrection::Keep
        }
    } else {
        if target_lat_nonnegative {
            BearingCorrection::ShiftHalf
        } else {
            BearingCorrection::MirrorFull
        }
    }
}

/// The quadrant-correction plan for one record: how each of the two
/// candidate angles is corrected, and which of the two is the bearing.
#[derive(Clone, Copy, Debug, PartialEq, Eq, Structural)]
pub struct BearingPlan {
    pub alpha_correction: BearingCorrection,
    pub beta_correction: BearingCorrection,
    /// The bearing is the corrected `alpha` when the target lies eastward,
    /// and the corrected `beta` otherwise.
    pub use_alpha: bool,
}

/// Decides the quadrant correction.  The arc cosine delivers both candidate
/// bearings in `[0, 180]` degrees, which loses the hemisphere and the
/// direction of travel; this decision restores them from the eastward test
/// and the signs of the two latitudes.
pub fn plan_bearing(eastward: bool, reference_lat_negative: bool, target_lat_nonnegative: bool) -> (p:
    BearingPlan)
    ensures
        p.alpha_correction == spec_alpha_correction(eastward, reference_lat_negative),
        p.beta_correction == spec_beta_correction(eastward, target_lat_nonnegative),
        p.use_alpha == eastward,
{
    let alpha_correction = if eastward {
        if reference_lat_negative {
            BearingCorrection::MirrorHalf
        } else {
            BearingCorrection::Keep
        }
    } else {
        if reference_lat_negative {
            BearingCorrection::ShiftHalf
        } else {
            BearingCorrection::MirrorFull
        }
    };
    let beta_correction = if eastward {
        if target_lat_nonnegative {
            BearingCorrection::MirrorHalf
        } else {
            BearingCorrection::Keep
        }
    } else {
        if target_lat_nonnegative {
            BearingCorrection::ShiftHalf
        } else {
            BearingCorrection::MirrorFull
        }
    };
    BearingPlan { alpha_correction, beta_correction, use_alpha: eastward }
}

/// Every correction maps a candidate angle in `[0, 180]` into the compass
/// range `[0, 360]` (the upper bound is reached only by a corrected zero).
pub proof fn lemma_correction_in_compass_range(c: BearingCorrection, x: int)
    requires
        0 <= x <= 180,
    ensures
        0 <= corrected_degrees(c, x) <= 360,
{
}

} // verus!
