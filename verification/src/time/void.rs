use super::clock::Clock;
use crate::vm::number::Number;
use vstd::prelude::*;

verus! {

/// A clock that stands still at zero.
#[derive(Debug)]
pub struct VoidTime {}

impl VoidTime {
    /// Creates a clock.
    pub fn new() -> (result: Self)
        ensures
            result == (VoidTime {  }),
    {
        VoidTime {  }
    }
}

impl Clock for VoidTime {
    /// The clock tells zero.
    open spec fn telling(&self, result: Option<Number>) -> bool {
        result == Some(Number(0))
    }

    fn current_jiffy(&self) -> (result: Option<Number>) {
        Some(Number::new(0))
    }
}

} // verus!
