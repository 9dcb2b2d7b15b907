//! Running statistics of the rott, fed to a congestion detector.
use crate::congestion_detection::{CongestionDetector, CongestionState, DELAY_SCALE, WEIGHT_ONE};
use vstd::prelude::*;

verus! {

/// The largest running mean: `u32::MAX` microseconds in fixed point.
pub const MAX_AVG_ROTT: i64 = 0xFFFF_FFFF * 1000;

/// `num / d` rounded toward zero.
pub open spec fn div_toward_zero(num: int, d: int) -> int {
    if num >= 0 {
        num / d
    } else {
        -((-num) / d)
    }
}

/// The running mean after `rott`: `(1 - w) * avg + w * rott`.
pub open spec fn next_avg(avg: int, w: int, rott: u32) -> int {
    ((WEIGHT_ONE - w) * avg + w * (rott * DELAY_SCALE)) / (WEIGHT_ONE as int)
}

/// The running deviation after `rott`, given the new mean:
/// `(1 - 2w) + 2w * |rott - avg|`.
pub open spec fn next_std(new_avg: int, w: int, rott: u32) -> int {
    let diff = rott * DELAY_SCALE - new_avg;
    let abs = if diff >= 0 {
        diff
    } else {
        -diff
    };
    div_toward_zero((WEIGHT_ONE - 2 * w) * DELAY_SCALE + 2 * w * abs, WEIGHT_ONE as int)
}

pub struct NetworkAnalyzer<CD> {
    /// The estimated average delay.
    avg_rott: i64,
    /// The estimated deviation of the delay.
    std_rott: i64,
    /// The previous rott.
    prev_rott: u32,
    /// The congestion detector.
    congestion_detector: CD,
    /// The weight of the exponentially decaying average, in units of
    /// `1 / WEIGHT_ONE`.
    w: u32,
    /// The current congestion state.
    state: CongestionState,
}

impl<CD: CongestionDetector> NetworkAnalyzer<CD> {
    pub closed spec fn wf(&self) -> bool {
        &&& 0 <= self.avg_rott <= MAX_AVG_ROTT
        &&& self.w <= WEIGHT_ONE
        &&& self.congestion_detector.inv()
    }

    /// The running mean of the rott, in fixed point.
    pub closed spec fn avg_rott(&self) -> int {
        self.avg_rott as int
    }

    /// The running deviation of the rott, in fixed point.
    pub closed spec fn std_rott(&self) -> int {
        self.std_rott as int
    }

    pub closed spec fn prev_rott(&self) -> u32 {
        self.prev_rott
    }

    pub closed spec fn weight(&self) -> u32 {
        self.w
    }

    pub closed spec fn spec_state(&self) -> CongestionState {
        self.state
    }

    pub closed spec fn detector(&self) -> CD {
        self.congestion_detector
    }

    /// `w` is in units of `1 / WEIGHT_ONE`.
    pub fn new(congestion_detector: CD, w: u32) -> (r: Self)
        requires
            w <= WEIGHT_ONE,
            congestion_detector.inv(),
        ensures
            r.wf(),
            r.avg_rott() == 0,
            r.std_rott() == 0,
            r.prev_rott() == 0,
            r.weight() == w,
            r.spec_state() == CongestionState::NotSure,
    {
        Self {
            avg_rott: 0,
            std_rott: 0,
            prev_rott: 0,
            congestion_detector,
            w,
            state: CongestionState::NotSure,
        }
    }

    fn calc_avg_and_std_rott(&self, rott: u32) -> (r: (i64, i64))
        requires
            self.wf(),
        ensures
            r.0 == next_avg(self.avg_rott(), self.weight() as int, rott),
            r.1 == next_std(r.0 as int, self.weight() as int, rott),
            0 <= r.0 <= MAX_AVG_ROTT,
    {
        let w = self.w as i128;
        let avg = self.avg_rott as i128;
        let scaled = rott as i128 * DELAY_SCALE as i128;
        proof {
            assert(0 <= (1_000_000 - w) * avg + w * scaled <= 1_000_000 * MAX_AVG_ROTT)
                by (nonlinear_arith)
                requires
                    0 <= w <= 1_000_000,
                    0 <= avg <= MAX_AVG_ROTT,
                    0 <= scaled <= MAX_AVG_ROTT,
            ;
        }
        let new_avg = ((1_000_000 - w) * avg + w * scaled) / 1_000_000;
        let diff = scaled - new_avg;
        let abs = if diff >= 0 {
            diff
        } else {
            -diff
        };
        proof {
            assert(0 <= 2 * w * abs <= 2 * 1_000_000 * MAX_AVG_ROTT) by (nonlinear_arith)
                requires
                    0 <= w <= 1_000_000,
                    0 <= abs <= MAX_AVG_ROTT,
            ;
        }
        let num = (1_000_000 - 2 * w) * DELAY_SCALE as i128 + 2 * w * abs;
        let new_std = if num >= 0 {
            num / 1_000_000
        } else {
            -((-num) / 1_000_000)
        };
        (new_avg as i64, new_std as i64)
    }

    /// Takes in a rott: updates the mean and the deviation, classifies the
    /// link with the detector and remembers the rott.
    pub fn update_state(&mut self, rott: u32)
        requires
            old(self).wf(),
        ensures
            final(self).wf(),
            final(self).weight() == old(self).weight(),
            final(self).avg_rott() == next_avg(old(self).avg_rott(), old(self).weight() as int, rott),
            final(self).std_rott() == next_std(final(self).avg_rott(), old(self).weight() as int, rott),
            final(self).prev_rott() == rott,
            final(self).spec_state() == old(self).detector().verdict(
                rott,
                final(self).avg_rott() as i64,
                final(self).std_rott() as i64,
                old(self).prev_rott(),
            ),
    {
        let (avg_rott, std_rott) = self.calc_avg_and_std_rott(rott);

        self.state = self.congestion_detector.is_congested(rott, avg_rott, std_rott, self.prev_rott);

        self.avg_rott = avg_rott;
        self.std_rott = std_rott;
        self.prev_rott = rott;
    }

    /// The latest classification of the link.
    pub fn state(&self) -> (r: CongestionState)
        ensures
            r == self.spec_state(),
    {
        self.state
    }
}

} // verus!
