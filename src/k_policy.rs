//! Policies that map a congestion state and the current compression factor
//! `k` to the next one.
use crate::congestion_detection::CongestionState;
use vstd::prelude::*;

verus! {

pub const K_MAX: i8 = 4;

pub const K_MIN: i8 = 1;

/// The largest exponent that the exponential back-off evaluates.
pub const MAX_ZIG_ZAG: usize = 64;

pub open spec fn valid_k(k: i8) -> bool {
    K_MIN <= k <= K_MAX
}

/// `k` one step smaller, but not below `K_MIN`.
pub open spec fn k_down(k: i8) -> i8 {
    if k - 1 < K_MIN {
        K_MIN
    } else {
        (k - 1) as i8
    }
}

/// `k` one step larger, but not above `K_MAX`.
pub open spec fn k_up(k: i8) -> i8 {
    if k + 1 > K_MAX {
        K_MAX
    } else {
        (k + 1) as i8
    }
}

fn k_down_exec(k: i8) -> (r: i8)
    requires
        valid_k(k),
    ensures
        r == k_down(k),
{
    if k - 1 < K_MIN {
        K_MIN
    } else {
        k - 1
    }
}

fn k_up_exec(k: i8) -> (r: i8)
    requires
        valid_k(k),
    ensures
        r == k_up(k),
{
    if k + 1 > K_MAX {
        K_MAX
    } else {
        k + 1
    }
}

pub trait KPolicy {
    /// What holds of the policy's own state between calls.
    spec fn inv(&self) -> bool;

    /// What the policy answers when called with these arguments.
    spec fn choice(&self, congestion_state: CongestionState, current_k: i8) -> Option<i8>;

    /// The next `k`, or `None` to keep the current one.
    fn select_k(&mut self, congestion_state: CongestionState, current_k: i8) -> (r: Option<i8>)
        requires
            old(self).inv(),
            valid_k(current_k),
        ensures
            final(self).inv(),
            r == old(self).choice(congestion_state, current_k),
            match r {
                Some(k) => valid_k(k),
                None => true,
            },
    ;
}

/// Slow decrease, multiplicative increase: jump to `K_MAX` under
/// congestion, step down otherwise.
pub open spec fn sdmi_k(congestion_state: CongestionState, current_k: i8) -> Option<i8> {
    match congestion_state {
        CongestionState::NotSure => None,
        CongestionState::Congested => Some(K_MAX),
        CongestionState::NotCongested => Some(k_down(current_k)),
    }
}

/// Slow decrease, slow increase: one step up under congestion, one step
/// down otherwise.
pub open spec fn sdsi_k(congestion_state: CongestionState, current_k: i8) -> Option<i8> {
    match congestion_state {
        CongestionState::NotSure => None,
        CongestionState::Congested => Some(k_up(current_k)),
        CongestionState::NotCongested => Some(k_down(current_k)),
    }
}

pub struct KPolicySDMI;

impl KPolicy for KPolicySDMI {
    open spec fn inv(&self) -> bool {
        true
    }

    open spec fn choice(&self, congestion_state: CongestionState, current_k: i8) -> Option<i8> {
        sdmi_k(congestion_state, current_k)
    }

    fn select_k(&mut self, congestion_state: CongestionState, current_k: i8) -> (r: Option<i8>)
        ensures
            r == sdmi_k(congestion_state, current_k),
    {
        match congestion_state {
            CongestionState::NotSure => None,
            CongestionState::Congested => Some(K_MAX),
            CongestionState::NotCongested => Some(k_down_exec(current_k)),
        }
    }
}

pub struct KPolicySDSI;

impl KPolicy for KPolicySDSI {
    open spec fn inv(&self) -> bool {
        true
    }

    open spec fn choice(&self, congestion_state: CongestionState, current_k: i8) -> Option<i8> {
        sdsi_k(congestion_state, current_k)
    }

    fn select_k(&mut self, congestion_state: CongestionState, current_k: i8) -> (r: Option<i8>)
        ensures
            r == sdsi_k(congestion_state, current_k),
    {
        match congestion_state {
            CongestionState::NotSure => None,
            CongestionState::Congested => Some(k_up_exec(current_k)),
            CongestionState::NotCongested => Some(k_down_exec(current_k)),
        }
    }
}

pub open spec fn pow_nat(base: nat, e: nat) -> nat
    decreases e,
{
    if e == 0 {
        1
    } else {
        base * pow_nat(base, (e - 1) as nat)
    }
}

/// `1.5` raised to the power `e`, rounded down.
pub open spec fn pow_three_halves(e: nat) -> nat {
    pow_nat(3, e) / pow_nat(2, e)
}

proof fn lemma_pow_monotonic(base: nat, a: nat, b: nat)
    requires
        base >= 1,
        a <= b,
    ensures
        1 <= pow_nat(base, a) <= pow_nat(base, b),
    decreases b,
{
    if b > a {
        lemma_pow_monotonic(base, a, (b - 1) as nat);
        assert(pow_nat(base, (b - 1) as nat) <= base * pow_nat(base, (b - 1) as nat))
            by (nonlinear_arith)
            requires
                base >= 1,
        ;
    } else if a > 0 {
        lemma_pow_monotonic(base, (a - 1) as nat, (a - 1) as nat);
        assert(1 <= base * pow_nat(base, (a - 1) as nat)) by (nonlinear_arith)
            requires
                base >= 1,
                1 <= pow_nat(base, (a - 1) as nat),
        ;
    }
}

proof fn lemma_pow_limits()
    ensures
        pow_nat(3, 64) == 3433683820292512484657849089281,
        pow_nat(2, 64) == 0x1_0000_0000_0000_0000,
{
    reveal_with_fuel(pow_nat, 65);
}

/// Jump to `K_MAX` under congestion, step down otherwise; counts the calls
/// since the last change for an exponential back-off.
pub struct KPolicySDMIExponentialBackoff {
    zig_zag_counter: usize,
    max_backoff: usize,
    k_over_limit: i8,
    counter: usize,
    congested_in_a_row: usize,
}

impl KPolicySDMIExponentialBackoff {
    /// The calls since `k` last changed.
    pub closed spec fn counter(&self) -> usize {
        self.counter
    }

    /// The exponent of the back-off.
    pub closed spec fn zig_zag_counter(&self) -> usize {
        self.zig_zag_counter
    }

    /// The longest back-off.
    pub closed spec fn max_backoff(&self) -> usize {
        self.max_backoff
    }

    /// The congested states seen in a row.
    pub closed spec fn congested_in_a_row(&self) -> usize {
        self.congested_in_a_row
    }

    pub fn new(max_backoff: usize) -> (r: Self)
        ensures
            r.inv(),
            r.max_backoff() == max_backoff,
            r.counter() == 0,
            r.zig_zag_counter() == 0,
            r.congested_in_a_row() == 0,
    {
        Self { zig_zag_counter: 0, max_backoff, k_over_limit: K_MAX, counter: 0, congested_in_a_row: 0 }
    }

    /// Whether more calls have passed than the back-off asks for: the
    /// smaller of `max_backoff` and `1.5` raised to the zig-zag count.
    pub fn backoff(&self) -> (r: bool)
        requires
            self.inv(),
        ensures
            r == (self.counter() > if self.max_backoff() < pow_three_halves(
                self.zig_zag_counter() as nat,
            ) {
                self.max_backoff() as nat
            } else {
                pow_three_halves(self.zig_zag_counter() as nat)
            }),
    {
        let z = self.zig_zag_counter;
        let mut num: u128 = 1;
        let mut den: u128 = 1;
        let mut i: usize = 0;
        while i < z
            invariant
                z <= MAX_ZIG_ZAG,
                i <= z,
                num == pow_nat(3, i as nat),
                den == pow_nat(2, i as nat),
            decreases z - i,
        {
            proof {
                lemma_pow_limits();
                lemma_pow_monotonic(3, (i + 1) as nat, 64);
                lemma_pow_monotonic(2, (i + 1) as nat, 64);
            }
            num = num * 3;
            den = den * 2;
            i += 1;
        }
        proof {
            lemma_pow_monotonic(2, i as nat, i as nat);
        }
        let limit = num / den;
        let bound = if (self.max_backoff as u128) < limit {
            self.max_backoff as u128
        } else {
            limit
        };
        (self.counter as u128) > bound
    }
}

impl KPolicy for KPolicySDMIExponentialBackoff {
    closed spec fn inv(&self) -> bool {
        self.zig_zag_counter <= MAX_ZIG_ZAG
    }

    open spec fn choice(&self, congestion_state: CongestionState, current_k: i8) -> Option<i8> {
        sdmi_k(congestion_state, current_k)
    }

    fn select_k(&mut self, congestion_state: CongestionState, current_k: i8) -> (r: Option<i8>)
        ensures
            r == sdmi_k(congestion_state, current_k),
            final(self).max_backoff() == old(self).max_backoff(),
            final(self).zig_zag_counter() == old(self).zig_zag_counter(),
            congestion_state == CongestionState::NotSure ==> final(self).counter() == if old(self).counter() < usize::MAX {
                (old(self).counter() + 1) as usize
            } else {
                usize::MAX
            } && final(self).congested_in_a_row() == old(self).congested_in_a_row(),
            congestion_state != CongestionState::NotSure ==> final(self).counter() == 0
                && final(self).congested_in_a_row() == 0,
    {
        if self.counter < usize::MAX {
            self.counter = self.counter + 1;
        }
        match congestion_state {
            CongestionState::NotSure => None,
            CongestionState::Congested => {
                if self.congested_in_a_row < usize::MAX {
                    self.congested_in_a_row = self.congested_in_a_row + 1;
                }
                if self.congested_in_a_row > 0 {
                    self.congested_in_a_row = 0;
                    self.counter = 0;
                    Some(K_MAX)
                } else {
                    None
                }
            },
            CongestionState::NotCongested => {
                self.congested_in_a_row = 0;
                self.counter = 0;
                Some(k_down_exec(current_k))
            },
        }
    }
}

} // verus!
