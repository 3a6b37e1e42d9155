//! A progress reading inferred from child output.

use vstd::prelude::*;

verus! {

/// Mathematical model of a reading: what the contracts speak about.
pub struct SpecReading {
    /// Percent complete, in hundredths of a percent (`0..=10000`).
    pub percent_centi: Option<u32>,
    pub current: Option<u64>,
    pub total: Option<u64>,
    pub summary: Seq<char>,
}

impl SpecReading {
    /// Readings keep their percentage within 0–100 % and carry step
    /// counters only as a pair with a positive total.
    pub open spec fn wf(self) -> bool {
        &&& (self.percent_centi is Some ==> self.percent_centi->0 <= 10000)
        &&& (self.current is Some <==> self.total is Some)
        &&& (self.total is Some ==> self.total->0 > 0)
    }
}

/// A progress reading: percent complete (in hundredths of a percent),
/// step counters when a `current/total` pair was seen, and a one-line
/// summary.
pub struct ProgressReading {
    /// Percent complete, in hundredths of a percent (`0..=10000`).
    pub percent_centi: Option<u32>,
    pub current: Option<u64>,
    pub total: Option<u64>,
    pub summary: String,
}

impl View for ProgressReading {
    type V = SpecReading;

    open spec fn view(&self) -> SpecReading {
        SpecReading {
            percent_centi: self.percent_centi,
            current: self.current,
            total: self.total,
            summary: self.summary@,
        }
    }
}

/// The model of an optional reading.
pub open spec fn view_opt(r: Option<ProgressReading>) -> Option<SpecReading> {
    match r {
        Option::Some(p) => Option::Some(p@),
        Option::None => Option::None,
    }
}

} // verus!
