//! Settings the library reads.

use vstd::prelude::*;

verus! {

/// Everything that can be configured.
#[derive(Debug)]
pub struct Settings {
    pub clock: Clock,
}

impl Default for Settings {
    fn default() -> (r: Self)
        ensures
            r.clock.resolution == 1920,
    {
        Settings { clock: Clock::default() }
    }
}

/// Settings of the tempo clock.
#[derive(Debug)]
pub struct Clock {
    /// Ticks per beat.
    pub resolution: u64,
}

impl Default for Clock {
    fn default() -> (r: Self)
        ensures
            r.resolution == 1920,
    {
        Clock { resolution: 1920 }
    }
}

} // verus!
