//! Small host-facing helpers that need no machine state.

use vstd::prelude::*;

verus! {

/// Default instructions-per-second cadence suggested to the host loop.
pub const TICKRATE: u128 = 60;

pub struct Utils;

impl Utils {
    /// Nanoseconds the host should allot to one instruction at the default
    /// cadence.
    pub fn instruction_time_ns() -> (r: u128)
        ensures
            r == 1_000_000_000u128 / TICKRATE,
    {
        1_000_000_000u128 / TICKRATE
    }
}

} // verus!
