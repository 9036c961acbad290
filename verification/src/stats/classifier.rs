//! How far is too far.
use vstd::prelude::*;

use crate::anomaly::classifier::{confidence_from, confidence_of, dominant_from, dominant_of};
use crate::anomaly::model::AnomalyLevel;
use crate::baseline::estimator::BaselineStats;
use crate::binary64::Binary64;
use crate::common::ProtoIndex;

verus! {

/// How one protocol's rates stand to its baseline.
#[derive(Debug, Clone, Copy)]
pub struct AnomalyDecision {
    pub proto: ProtoIndex,
    pub pps: Binary64,
    pub bps: Binary64,
    pub pps_baseline: BaselineStats,
    pub bps_baseline: BaselineStats,
    pub z_pps: Option<Binary64>,
    pub z_bps: Option<Binary64>,
    pub anomaly_level: AnomalyLevel,
}

impl AnomalyDecision {
    /// The larger distance, with its sign.
    pub fn dominant_z(&self) -> (r: Option<Binary64>)
        ensures
            r == dominant_of(self.z_pps, self.z_bps),
    {
        dominant_from(self.z_pps, self.z_bps)
    }

    /// How pronounced the anomaly is, from 0 to 1.
    pub fn confidence(&self) -> (r: Binary64)
        ensures
            r == confidence_of(self.z_pps, self.z_bps),
    {
        confidence_from(self.z_pps, self.z_bps)
    }
}

/// The level of a distance: normal below 3, suspicious below 6, severe otherwise.
pub open spec fn classify_spec(z: Option<Binary64>) -> Option<AnomalyLevel> {
    match z {
        Some(v) => Some(
            if v.abs_spec().lt_spec(Binary64::three()) {
                AnomalyLevel::Normal
            } else if v.abs_spec().lt_spec(Binary64::six()) {
                AnomalyLevel::Suspicious
            } else {
                AnomalyLevel::Severe
            },
        ),
        None => None,
    }
}

/// The level of a distance: normal below 3, suspicious below 6, severe otherwise.
pub fn classify(z: Option<Binary64>) -> (r: Option<AnomalyLevel>)
    ensures
        r == classify_spec(z),
{
    match z {
        Some(v) => {
            let a: Binary64 = v.abs();
            if a.lt(Binary64::three()) {
                Some(AnomalyLevel::Normal)
            } else if a.lt(Binary64::six()) {
                Some(AnomalyLevel::Suspicious)
            } else {
                Some(AnomalyLevel::Severe)
            }
        },
        None => None,
    }
}

/// The level of a distance goes by its size: severe from 6 on, suspicious from 3 on; a
/// distance that is not there has none.
pub proof fn law_level_goes_by_the_size(z: Binary64)
    requires
        !z.nan(),
    ensures
        classify_spec(None) is None,
        classify_spec(Some(z)) == Some(AnomalyLevel::Severe) <==> z.mag()
            >= Binary64::six().mag(),
        classify_spec(Some(z)) == Some(AnomalyLevel::Normal) <==> z.mag()
            < Binary64::three().mag(),
        classify_spec(Some(z)) is Some,
{
}

} // verus!
