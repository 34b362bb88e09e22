//! Time as the host counts it.

use vstd::prelude::*;

verus! {

/// A point in time: whole seconds and the nanoseconds past them.
#[derive(Clone, Copy, Debug, PartialEq, Eq, Structural)]
pub struct Time {
    pub sec: u32,
    pub nsec: u32,
}

impl Default for Time {
    fn default() -> (t: Time)
        ensures
            t.sec == 0,
            t.nsec == 0,
    {
        Time { sec: 0, nsec: 0 }
    }
}

} // verus!
