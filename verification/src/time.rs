//! The time source: the current time as whole seconds since the Unix epoch.
//!
//! The clock is an outside capability, so nothing is promised of what
//! `system_now_secs` returns; everything downstream takes the timestamp as a
//! plain value, and is verified for every value of it.

use vstd::prelude::*;

verus! {

/// Relies on std::time::SystemTime::now and chrono's SystemTime-to-DateTime
/// conversion together with DateTime::timestamp: the current time as whole
/// seconds since the Unix epoch. The conversion maps a clock before the
/// epoch to a negative reading rather than panicking. The clock decides the
/// value, so nothing is promised of it.
#[verifier::external_body]
fn system_now_secs() -> i64 {
    chrono::DateTime::<chrono::Utc>::from(std::time::SystemTime::now()).timestamp()
}

/// Clamps a raw clock reading to the library's time domain: seconds since the
/// Unix epoch, with readings before the epoch flattened to zero.
pub fn clamp_epoch_secs(raw: i64) -> (r: u64)
    ensures
        r == if raw >= 0 {
            raw as u64
        } else {
            0u64
        },
{
    if raw >= 0 {
        raw as u64
    } else {
        0
    }
}

/// A source of "now", injectable so that the registration pipeline can be
/// driven by a deterministic clock under test.
pub trait TimeService: Sized {
    /// The current time in whole seconds since the Unix epoch.
    fn now(&self) -> u64;
}

/// The real clock.
pub struct SystemTimeService {}

impl TimeService for SystemTimeService {
    fn now(&self) -> u64 {
        clamp_epoch_secs(system_now_secs())
    }
}

/// A clock frozen at the instant it was created.
pub struct ConstantTimeService {
    value: u64,
}

impl ConstantTimeService {
    /// The frozen reading, for contracts.
    pub closed spec fn spec_value(&self) -> u64 {
        self.value
    }

    pub fn new() -> (r: Self) {
        ConstantTimeService { value: clamp_epoch_secs(system_now_secs()) }
    }
}

impl TimeService for ConstantTimeService {
    fn now(&self) -> (r: u64)
        ensures
            r == self.spec_value(),
    {
        self.value
    }
}

} // verus!
