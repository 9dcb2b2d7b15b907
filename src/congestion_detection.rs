//! Congestion detectors: each classifies the link from the latest rott and
//! the analyzer's running statistics.
//!
//! Rotts are whole microseconds. The running mean and deviation are fixed
//! point numbers in units of `1 / DELAY_SCALE` microseconds; weights and the
//! trend index are fixed point numbers in units of `1 / WEIGHT_ONE`.
use vstd::prelude::*;

verus! {

/// Fixed-point units per microsecond in the delay statistics.
pub const DELAY_SCALE: i64 = 1000;

/// The fixed-point representation of a weight of one.
pub const WEIGHT_ONE: u32 = 1_000_000;

#[derive(Debug, Clone, Copy, PartialEq, Eq, Structural)]
pub enum CongestionState {
    /// The detector is not sure.
    NotSure,
    /// The network is congested.
    Congested,
    /// The network is not congested.
    NotCongested,
}

/// Whether `rott` microseconds lie above the fixed-point mean `avg_rott`.
pub open spec fn above(rott: u32, avg_rott: i64) -> bool {
    rott as int * DELAY_SCALE > avg_rott as int
}

fn above_exec(rott: u32, avg_rott: i64) -> (r: bool)
    ensures
        r == above(rott, avg_rott),
{
    (rott as i128) * (DELAY_SCALE as i128) > avg_rott as i128
}

pub trait CongestionDetector {
    /// What holds of the detector's own state between calls.
    spec fn inv(&self) -> bool;

    /// The state that the detector reports when called with these
    /// arguments.
    spec fn verdict(&self, rott: u32, avg_rott: i64, std_rott: i64, prev_rott: u32) -> CongestionState;

    /// Classifies the link. `avg_rott` and `std_rott` are the running mean
    /// and deviation after `rott` was taken in; `prev_rott` is the rott
    /// before it.
    fn is_congested(&mut self, rott: u32, avg_rott: i64, std_rott: i64, prev_rott: u32) -> (r:
        CongestionState)
        requires
            old(self).inv(),
        ensures
            final(self).inv(),
            r == old(self).verdict(rott, avg_rott, std_rott, prev_rott),
    ;
}

/// Congested whenever the rott exceeds the mean by more than the deviation.
pub struct ZigZag {}

impl ZigZag {
    pub fn new() -> (r: Self) {
        ZigZag {  }
    }
}

impl Default for ZigZag {
    fn default() -> (r: Self) {
        ZigZag {  }
    }
}

impl CongestionDetector for ZigZag {
    open spec fn inv(&self) -> bool {
        true
    }

    open spec fn verdict(&self, rott: u32, avg_rott: i64, std_rott: i64, prev_rott: u32) -> CongestionState {
        if rott as int * DELAY_SCALE > avg_rott + std_rott {
            CongestionState::Congested
        } else {
            CongestionState::NotCongested
        }
    }

    fn is_congested(&mut self, rott: u32, avg_rott: i64, std_rott: i64, _prev_rott: u32) -> (r:
        CongestionState)
        ensures
            r == (if rott as int * DELAY_SCALE > avg_rott + std_rott {
                CongestionState::Congested
            } else {
                CongestionState::NotCongested
            }),
    {
        if (rott as i128) * (DELAY_SCALE as i128) > (avg_rott as i128) + (std_rott as i128) {
            CongestionState::Congested
        } else {
            CongestionState::NotCongested
        }
    }
}

/// Reserved detector: it never decides.
pub struct Biaz {}

impl Biaz {
    pub fn new() -> (r: Self) {
        Biaz {  }
    }
}

impl Default for Biaz {
    fn default() -> (r: Self) {
        Biaz {  }
    }
}

impl CongestionDetector for Biaz {
    open spec fn inv(&self) -> bool {
        true
    }

    open spec fn verdict(&self, rott: u32, avg_rott: i64, std_rott: i64, prev_rott: u32) -> CongestionState {
        CongestionState::NotSure
    }

    fn is_congested(&mut self, _rott: u32, _avg_rott: i64, _std_rott: i64, _prev_rott: u32) -> (r:
        CongestionState)
        ensures
            r == CongestionState::NotSure,
    {
        CongestionState::NotSure
    }
}

/// Tracks a decaying index of how often the rott grew.
pub struct Trend {
    /// The threshold of the trend index.
    s_threshold: u32,
    /// Exponential decaying factor that weights the impact of the current
    /// rott on the trend index.
    gamma: u32,
    /// The current trend index.
    s_f: u32,
}

/// The trend index after one step: decayed by `1 - gamma`, plus `gamma`
/// when the rott grew.
pub open spec fn next_trend(s_f: u32, gamma: u32, grew: bool) -> int {
    (WEIGHT_ONE - gamma) * s_f / (WEIGHT_ONE as int) + if grew {
        gamma as int
    } else {
        0
    }
}

impl Trend {
    pub closed spec fn s_threshold(&self) -> u32 {
        self.s_threshold
    }

    pub closed spec fn gamma(&self) -> u32 {
        self.gamma
    }

    /// The trend index, in units of `1 / WEIGHT_ONE`.
    pub closed spec fn trend_index(&self) -> u32 {
        self.s_f
    }

    /// `gamma` and `s_threshold` are in units of `1 / WEIGHT_ONE`.
    pub fn new(gamma: u32, s_threshold: u32) -> (r: Self)
        requires
            gamma <= WEIGHT_ONE,
        ensures
            r.inv(),
            r.gamma() == gamma,
            r.s_threshold() == s_threshold,
            r.trend_index() == 0,
    {
        Trend { s_threshold, gamma, s_f: 0 }
    }
}

impl Default for Trend {
    /// A decay of 0.9 and a threshold of 0.4.
    fn default() -> (r: Self)
        ensures
            r.inv(),
            r.gamma() == 900_000,
            r.s_threshold() == 400_000,
            r.trend_index() == 0,
    {
        Trend { s_threshold: 400_000, gamma: 900_000, s_f: 0 }
    }
}

impl CongestionDetector for Trend {
    closed spec fn inv(&self) -> bool {
        self.gamma <= WEIGHT_ONE && self.s_f <= WEIGHT_ONE
    }

    /// Congested when the trend index after this rott exceeds the threshold.
    open spec fn verdict(&self, rott: u32, avg_rott: i64, std_rott: i64, prev_rott: u32) -> CongestionState {
        if self.s_threshold() < next_trend(self.trend_index(), self.gamma(), rott > prev_rott) {
            CongestionState::Congested
        } else {
            CongestionState::NotCongested
        }
    }

    fn is_congested(&mut self, rott: u32, _avg_rott: i64, _std_rott: i64, prev_rott: u32) -> (r:
        CongestionState)
        ensures
            final(self).gamma() == old(self).gamma(),
            final(self).s_threshold() == old(self).s_threshold(),
            final(self).trend_index() == next_trend(
                old(self).trend_index(),
                old(self).gamma(),
                rott > prev_rott,
            ),
            r == (if final(self).s_threshold() < final(self).trend_index() {
                CongestionState::Congested
            } else {
                CongestionState::NotCongested
            }),
    {
        let g = self.gamma as u64;
        let s = self.s_f as u64;
        proof {
            assert((1_000_000 - g) * s <= (1_000_000 - g) * 1_000_000) by (nonlinear_arith)
                requires
                    s <= 1_000_000,
                    g <= 1_000_000,
            ;
            vstd::arithmetic::div_mod::lemma_div_is_ordered(
                (1_000_000 - g) * s,
                (1_000_000 - g) * 1_000_000,
                1_000_000,
            );
            vstd::arithmetic::div_mod::lemma_div_multiples_vanish(
                (1_000_000 - g) as int,
                1_000_000,
            );
        }
        let decayed = (1_000_000 - g) * s / 1_000_000;
        let mut next = decayed;
        if rott > prev_rott {
            next = next + g;
        }
        self.s_f = next as u32;
        if self.s_threshold < self.s_f {
            CongestionState::Congested
        } else {
            CongestionState::NotCongested
        }
    }
}

/// The sum of a sequence of rotts.
pub open spec fn rott_sum(s: Seq<u32>) -> int
    decreases s.len(),
{
    if s.len() == 0 {
        0
    } else {
        rott_sum(s.drop_last()) + s.last()
    }
}

/// Whether `v` lies outside the band from 0.9 to 1.1 times the mean of the
/// window, each bound rounded down.
pub open spec fn out_of_band(v: u32, sum: int, n: int) -> bool {
    (v as int) < (9 * sum) / (10 * n) || (v as int) > (11 * sum) / (10 * n)
}

/// Watches the last `n` rotts in a ring.
pub struct Window {
    /// The number of samples inside of a window.
    n: usize,
    /// The previous `n` rotts.
    previous_rotts: Vec<u32>,
    /// The ring slot that the next rott is written to.
    counter: usize,
    /// Number of consecutive rotts above the mean.
    increasing_rotts_in_a_row: usize,
}

impl Window {
    pub closed spec fn wf(&self) -> bool {
        &&& self.n >= 1
        &&& self.n <= isize::MAX
        &&& self.previous_rotts@.len() == self.n
        &&& self.counter < self.n
        &&& self.increasing_rotts_in_a_row <= self.n
    }

    /// The number of rotts in the window.
    pub closed spec fn size(&self) -> int {
        self.n as int
    }

    /// The ring of the last rotts.
    pub closed spec fn rotts(&self) -> Seq<u32> {
        self.previous_rotts@
    }

    /// The ring slot that the next rott is written to.
    pub closed spec fn slot(&self) -> int {
        self.counter as int
    }

    /// How many rotts in a row, up to the latest, lay above the mean.
    pub closed spec fn run(&self) -> int {
        self.increasing_rotts_in_a_row as int
    }

    pub fn new(n: isize) -> (r: Self)
        requires
            n >= 1,
        ensures
            r.wf(),
            r.size() == n,
            r.rotts() == Seq::new(n as nat, |i: int| 0u32),
            r.slot() == 0,
            r.run() == 0,
    {
        let mut previous_rotts: Vec<u32> = Vec::new();
        let mut i: usize = 0;
        while i < n as usize
            invariant
                i <= n,
                previous_rotts@ == Seq::new(i as nat, |j: int| 0u32),
            decreases n - i,
        {
            previous_rotts.push(0);
            i += 1;
            assert(previous_rotts@ =~= Seq::new(i as nat, |j: int| 0u32));
        }
        Window { n: n as usize, previous_rotts, counter: 0, increasing_rotts_in_a_row: 0 }
    }

    /// Empties the window: every slot back to zero, no run, writing from
    /// the first slot.
    fn reset(&mut self)
        requires
            1 <= old(self).n <= isize::MAX,
            old(self).previous_rotts@.len() == old(self).n,
        ensures
            final(self).wf(),
            final(self).size() == old(self).size(),
            final(self).rotts() == Seq::new(old(self).size() as nat, |i: int| 0u32),
            final(self).slot() == 0,
            final(self).run() == 0,
    {
        let mut i: usize = 0;
        while i < self.previous_rotts.len()
            invariant
                self.n == old(self).n,
                self.previous_rotts@.len() == self.n,
                i <= self.n,
                forall|j: int| 0 <= j < i ==> self.previous_rotts@[j] == 0,
            decreases self.n - i,
        {
            self.previous_rotts.set(i, 0);
            i += 1;
        }
        assert(self.previous_rotts@ =~= Seq::new(self.n as nat, |i: int| 0u32));
        self.increasing_rotts_in_a_row = 0;
        self.counter = 0;
    }

    fn sum(&self) -> (r: u128)
        requires
            self.previous_rotts@.len() <= isize::MAX,
        ensures
            r == rott_sum(self.previous_rotts@),
            r <= self.previous_rotts@.len() * 0xFFFF_FFFF,
    {
        let mut sum: u128 = 0;
        let mut i: usize = 0;
        while i < self.previous_rotts.len()
            invariant
                i <= self.previous_rotts@.len() <= isize::MAX,
                sum == rott_sum(self.previous_rotts@.take(i as int)),
                sum <= i * 0xFFFF_FFFF,
            decreases self.previous_rotts@.len() - i,
        {
            proof {
                assert(self.previous_rotts@.take(i + 1).drop_last() =~= self.previous_rotts@.take(
                    i as int,
                ));
            }
            sum = sum + self.previous_rotts[i] as u128;
            i += 1;
        }
        assert(self.previous_rotts@.take(i as int) =~= self.previous_rotts@);
        sum
    }
}

impl Default for Window {
    /// A window of eight rotts.
    fn default() -> (r: Self)
        ensures
            r.wf(),
            r.size() == 8,
            r.rotts() == Seq::new(8, |i: int| 0u32),
            r.slot() == 0,
            r.run() == 0,
    {
        Window::new(8)
    }
}

/// The verdict of a window that holds `rotts` after `rott` was written, with
/// `slot` the slot that comes next: not sure when `rott` or a stored rott
/// other than the one at `slot` lies outside the band around the mean, and
/// not congested otherwise.
///
/// `is_congested` also walks the ring from `rott` and counts the strict
/// increases, answering not sure when all `n` steps increase. That never
/// happens: the walk comes back to `rott` itself, so the verdict does not
/// depend on the count.
pub open spec fn window_verdict(rotts: Seq<u32>, slot: int, rott: u32) -> CongestionState {
    let n = rotts.len() as int;
    let sum = rott_sum(rotts);
    if out_of_band(rott, sum, n) || exists|j: int|
        1 <= j < n && #[trigger] out_of_band(rotts[(slot + j) % n], sum, n) {
        CongestionState::NotSure
    } else {
        CongestionState::NotCongested
    }
}

impl CongestionDetector for Window {
    open spec fn inv(&self) -> bool {
        self.wf()
    }

    /// Congested when more than `size()` rotts in a row, this one included,
    /// lay above the mean; else the verdict of the ring with this rott
    /// written.
    open spec fn verdict(&self, rott: u32, avg_rott: i64, std_rott: i64, prev_rott: u32) -> CongestionState {
        let run = if above(rott, avg_rott) {
            self.run() + 1
        } else {
            0
        };
        if run > self.size() {
            CongestionState::Congested
        } else {
            window_verdict(
                self.rotts().update(self.slot(), rott),
                (self.slot() + 1) % self.size(),
                rott,
            )
        }
    }

    fn is_congested(&mut self, rott: u32, avg_rott: i64, _std_rott: i64, _prev_rott: u32) -> (r:
        CongestionState)
        ensures
            ({
                let run = if above(rott, avg_rott) {
                    old(self).run() + 1
                } else {
                    0
                };
                let n = old(self).size();
                let rotts = old(self).rotts().update(old(self).slot(), rott);
                let slot = (old(self).slot() + 1) % n;
                &&& final(self).size() == n
                &&& (r == CongestionState::Congested) == (run > n)
                &&& run > n ==> final(self).rotts() == Seq::new(n as nat, |i: int| 0u32)
                    && final(self).slot() == 0 && final(self).run() == 0
                &&& run <= n ==> final(self).rotts() == rotts && final(self).slot() == slot
                    && final(self).run() == run && r == window_verdict(rotts, slot, rott)
            }),
    {
        if above_exec(rott, avg_rott) {
            self.increasing_rotts_in_a_row = self.increasing_rotts_in_a_row + 1;
        } else {
            self.increasing_rotts_in_a_row = 0;
        }
        let n = self.n;
        let written = self.counter;
        self.previous_rotts.set(written, rott);
        self.counter = if written + 1 == n {
            0
        } else {
            written + 1
        };
        assert(self.counter == (written + 1) % (n as int)) by (nonlinear_arith)
            requires
                written < n,
                self.counter == (if written + 1 == n {
                    0
                } else {
                    written + 1
                }),
        ;

        // too many rotts above the mean in a row
        if self.increasing_rotts_in_a_row > n {
            self.reset();
            return CongestionState::Congested;
        }

        let sum = self.sum();
        let lo = (9 * sum) / (10 * n as u128);
        let hi = (11 * sum) / (10 * n as u128);
        let c = self.counter;
        let ghost rotts = self.previous_rotts@;
        assert(rotts[(c + (n - 1)) % (n as int)] == rott) by {
            assert((c + (n - 1)) % (n as int) == written as int) by (nonlinear_arith)
                requires
                    c == (written + 1) % (n as int),
                    written < n,
                    n >= 1,
            ;
        }
        let ghost run = self.increasing_rotts_in_a_row;
        let mut current: u32 = rott;
        let mut increasing_rotts: usize = 0;
        let mut j: usize = 0;
        while j < n
            invariant
                n == self.n,
                n >= 1,
                c < n,
                self.wf(),
                self.counter == c,
                self.increasing_rotts_in_a_row == run,
                n == old(self).n,
                rotts == old(self).previous_rotts@.update(old(self).counter as int, rott),
                c == (old(self).counter + 1) % (n as int),
                run == (if above(rott, avg_rott) {
                    old(self).increasing_rotts_in_a_row + 1
                } else {
                    0
                }),
                self.previous_rotts@ == rotts,
                rotts.len() == n,
                rotts[(c + (n - 1)) % (n as int)] == rott,
                sum == rott_sum(rotts),
                lo == (9 * sum as int) / (10 * n as int),
                hi == (11 * sum as int) / (10 * n as int),
                j <= n,
                increasing_rotts <= j,
                j == 0 ==> current == rott,
                j > 0 ==> current == rotts[(c + j) % (n as int)],
                j > 0 && increasing_rotts == j ==> current > rott,
                j == n ==> increasing_rotts < n,
                n <= isize::MAX,
                j > 0 ==> !out_of_band(rott, sum as int, n as int),
                forall|k: int| 1 <= k < j ==> !#[trigger] out_of_band(rotts[(c + k) % (n as int)], sum as int, n as int),
            decreases n - j,
        {
            if (current as u128) < lo || (current as u128) > hi {
                assert(out_of_band(current, sum as int, n as int));
                if j > 0 {
                    let ghost nn = rotts.len() as int;
                    assert(out_of_band(rotts[(c + j) % nn], rott_sum(rotts), nn));
                }
                assert(window_verdict(rotts, c as int, rott) == CongestionState::NotSure);
                return CongestionState::NotSure;
            }
            let i = (c + 1 + j) % n;
            let next = self.previous_rotts[i];
            if current < next {
                increasing_rotts += 1;
            }
            proof {
                if j + 1 == n && n >= 2 {
                    assert(current == rott);
                }
            }
            current = next;
            j += 1;
        }
        assert(!(exists|k: int| 1 <= k < n && #[trigger] out_of_band(rotts[(c + k) % (n as int)], sum as int, n as int)));
        // without a rising trend, suggest a smaller k
        if increasing_rotts < n {
            CongestionState::NotCongested
        } else {
            CongestionState::NotSure
        }
    }
}

} // verus!
