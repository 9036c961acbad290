//! Severity of an anomaly.
use std::cmp::Ordering;

use vstd::prelude::*;
use vstd::std_specs::cmp::PartialOrdSpecImpl;

verus! {

/// Severity of a detected anomaly, least severe first.
///
/// By z-score: `Normal` below 3, `Suspicious` from 3 up to 6, `Severe` from 6 on.
#[derive(Debug, Clone, Copy, PartialEq, Eq, Structural)]
pub enum AnomalyLevel {
    Normal,
    Suspicious,
    Severe,
}

impl AnomalyLevel {
    /// Position in the order of severity.
    pub open spec fn rank_spec(self) -> u8 {
        match self {
            AnomalyLevel::Normal => 0,
            AnomalyLevel::Suspicious => 1,
            AnomalyLevel::Severe => 2,
        }
    }

    /// Position in the order of severity.
    pub fn rank(self) -> (r: u8)
        ensures
            r == self.rank_spec(),
    {
        match self {
            AnomalyLevel::Normal => 0,
            AnomalyLevel::Suspicious => 1,
            AnomalyLevel::Severe => 2,
        }
    }

    /// Whether there is nothing to report.
    pub fn is_normal(&self) -> (r: bool)
        ensures
            r == (*self == AnomalyLevel::Normal),
    {
        *self == AnomalyLevel::Normal
    }

    /// Lowercase name.
    pub open spec fn label_spec(self) -> Seq<char> {
        match self {
            AnomalyLevel::Normal => "normal"@,
            AnomalyLevel::Suspicious => "suspicious"@,
            AnomalyLevel::Severe => "severe"@,
        }
    }

    /// Lowercase name.
    pub fn label(self) -> (r: &'static str)
        ensures
            r@ == self.label_spec(),
    {
        match self {
            AnomalyLevel::Normal => "normal",
            AnomalyLevel::Suspicious => "suspicious",
            AnomalyLevel::Severe => "severe",
        }
    }

    /// The more severe of two levels.
    pub open spec fn worse_spec(self, other: AnomalyLevel) -> AnomalyLevel {
        if self.rank_spec() >= other.rank_spec() {
            self
        } else {
            other
        }
    }

    /// The more severe of two levels.
    pub fn worse(self, other: AnomalyLevel) -> (r: AnomalyLevel)
        ensures
            r == self.worse_spec(other),
    {
        if self.rank() >= other.rank() {
            self
        } else {
            other
        }
    }
}

impl PartialOrd for AnomalyLevel {
    fn partial_cmp(&self, other: &Self) -> (r: Option<Ordering>) {
        let a: u8 = self.rank();
        let b: u8 = other.rank();
        if a < b {
            Some(Ordering::Less)
        } else if a == b {
            Some(Ordering::Equal)
        } else {
            Some(Ordering::Greater)
        }
    }
}

impl PartialOrdSpecImpl for AnomalyLevel {
    open spec fn obeys_partial_cmp_spec() -> bool {
        true
    }

    open spec fn partial_cmp_spec(&self, other: &Self) -> Option<Ordering> {
        if self.rank_spec() < other.rank_spec() {
            Some(Ordering::Less)
        } else if self.rank_spec() == other.rank_spec() {
            Some(Ordering::Equal)
        } else {
            Some(Ordering::Greater)
        }
    }
}

/// Severe is worse than suspicious, and suspicious than normal; of two levels the worse one is
/// taken, whichever comes first.
pub proof fn law_levels_are_ordered(a: AnomalyLevel, b: AnomalyLevel)
    ensures
        AnomalyLevel::Normal.rank_spec() < AnomalyLevel::Suspicious.rank_spec(),
        AnomalyLevel::Suspicious.rank_spec() < AnomalyLevel::Severe.rank_spec(),
        a.worse_spec(b) == b.worse_spec(a),
        a.worse_spec(b) == AnomalyLevel::Severe <==> a == AnomalyLevel::Severe || b
            == AnomalyLevel::Severe,
        a.worse_spec(b) == AnomalyLevel::Normal <==> a == AnomalyLevel::Normal && b
            == AnomalyLevel::Normal,
{
}

} // verus!
