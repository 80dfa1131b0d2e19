use super::clock::{jiffies, jiffy, Clock};
use crate::vm::number::Number;
use vstd::prelude::*;

verus! {

/// A clock that asks the system for the time of day.
#[derive(Debug)]
pub struct LibcClock {}

impl LibcClock {
    /// Creates a clock.
    pub fn new() -> (result: Self)
        ensures
            result == (LibcClock {  }),
    {
        LibcClock {  }
    }
}

/// Reads the clock of the system with `rustix::time::clock_gettime_dynamic`
/// for the real time, and returns the seconds and the nanoseconds, or nothing
/// where the system fails to tell.  Nothing is claimed of the result: the
/// time is what the system says.
#[verifier::external_body]
fn real_time() -> (result: Option<(i64, i64)>) {
    match rustix::time::clock_gettime_dynamic(
        rustix::time::DynamicClockId::Known(rustix::time::ClockId::Realtime),
    ) {
        Ok(time) => Some((time.tv_sec, time.tv_nsec)),
        Err(_) => None,
    }
}

impl Clock for LibcClock {
    /// The clock tells the jiffies of some time of seconds and nanoseconds,
    /// or nothing.
    open spec fn telling(&self, result: Option<Number>) -> bool {
        exists|seconds: i64, nanoseconds: i64| result == #[trigger] jiffies(seconds, nanoseconds)
    }

    fn current_jiffy(&self) -> (result: Option<Number>) {
        match real_time() {
            Some((seconds, nanoseconds)) => jiffy(seconds, nanoseconds),
            None => {
                assert(jiffies(-1i64, 0i64) is None);
                None
            },
        }
    }
}

} // verus!
