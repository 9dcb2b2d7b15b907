//! Defaults of the channel configuration that harnesses read.
use vstd::prelude::*;

verus! {

/// The transmission delay of a channel whose configuration names none, in
/// microseconds.
pub fn default_transmission_delay_micros() -> (r: u64)
    ensures
        r == 5_000,
{
    5_000
}

} // verus!
