use crate::vm::number::Number;
use vstd::prelude::*;

verus! {

/// A clock.
pub trait Clock: Sized {
    /// What the clock may tell.  Of a clock that does not say, anything.
    open spec fn telling(&self, result: Option<Number>) -> bool {
        true
    }

    /// Returns the time in jiffies, of which a second has a thousand
    /// million, or nothing where the clock cannot tell.
    fn current_jiffy(&self) -> (result: Option<Number>)
        ensures
            self.telling(result),
    ;
}

/// The number of jiffies in a second.
pub const JIFFIES_PER_SECOND: u64 = 1_000_000_000;

/// The jiffies of a time of seconds and nanoseconds: nothing where one of
/// the two is negative, the nanoseconds make a second or more, or the jiffies
/// take more than sixty-four bits.
pub open spec fn jiffies(seconds: i64, nanoseconds: i64) -> Option<Number> {
    if seconds < 0 || nanoseconds < 0 || nanoseconds >= JIFFIES_PER_SECOND || seconds
        * JIFFIES_PER_SECOND + nanoseconds > u64::MAX {
        None
    } else {
        Some(Number((seconds * JIFFIES_PER_SECOND + nanoseconds) as u64))
    }
}

/// Returns the jiffies of a time of seconds and nanoseconds.
pub fn jiffy(seconds: i64, nanoseconds: i64) -> (result: Option<Number>)
    ensures
        result == jiffies(seconds, nanoseconds),
{
    if seconds < 0 || nanoseconds < 0 || nanoseconds >= 1_000_000_000 {
        return None;
    }
    let seconds = seconds as u64;
    let nanoseconds = nanoseconds as u64;

    if seconds > (u64::MAX - nanoseconds) / JIFFIES_PER_SECOND {
        None
    } else {
        Some(Number::new(seconds * JIFFIES_PER_SECOND + nanoseconds))
    }
}

} // verus!
