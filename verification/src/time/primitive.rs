use super::clock::Clock;
use crate::vm::engine::PrimitiveSet;
use crate::vm::error::Error;
use crate::vm::memory::Memory;
use crate::vm::model::MemoryView;
use crate::vm::number::Number;
use crate::vm::value::Value;
use vstd::prelude::*;

verus! {

/// A primitive of time.
#[derive(Clone, Copy, Debug, PartialEq, Eq, Structural)]
pub enum Primitive {
    /// The time in jiffies.
    CurrentJiffy,
}

/// The number of the primitive that reads the clock.
pub const CURRENT_JIFFY: u64 = 0;

impl Primitive {
    /// Returns the primitive of a number.
    pub fn from_number(number: u64) -> (result: Option<Primitive>)
        ensures
            result == if number == CURRENT_JIFFY {
                Some(Primitive::CurrentJiffy)
            } else {
                None
            },
    {
        if number == CURRENT_JIFFY {
            Some(Primitive::CurrentJiffy)
        } else {
            None
        }
    }
}

/// The set of the primitives of time, on a clock.
pub struct TimePrimitiveSet<T: Clock> {
    pub clock: T,
}

impl<T: Clock> TimePrimitiveSet<T> {
    /// Creates a set of primitives on a clock.
    pub fn new(clock: T) -> (result: Self)
        ensures
            result.clock == clock,
    {
        TimePrimitiveSet { clock }
    }
}

impl<T: Clock> PrimitiveSet for TimePrimitiveSet<T> {
    /// The primitive that reads the clock makes room for a cell and pushes
    /// the time that the clock tells; where the clock cannot tell, it fails.
    open spec fn operation(
        self,
        memory: MemoryView,
        primitive: u64,
        after: Self,
        new: MemoryView,
        result: Result<(), Error>,
    ) -> bool {
        &&& after == self
        &&& if primitive != CURRENT_JIFFY {
            new == memory && result == Err::<(), Error>(Error::IllegalPrimitive)
        } else {
            exists|mid: MemoryView, done: Result<(), Error>|
                {
                    &&& #[trigger] memory.reserving(mid, done)
                    &&& match done {
                        Err(error) => new == mid && result == Err::<(), Error>(error),
                        Ok(_) => exists|told: Option<Number>|
                            {
                                &&& #[trigger] self.clock.telling(told)
                                &&& match told {
                                    None => new == mid && result == Err::<(), Error>(Error::Clock),
                                    Some(time) => new == mid.pushed(Value::Number(time))
                                        && result == Ok::<(), Error>(()),
                                }
                            },
                    }
                }
        }
    }

    fn operate(&mut self, memory: &mut Memory, primitive: u64) -> (result: Result<(), Error>) {
        match Primitive::from_number(primitive) {
            None => Err(Error::IllegalPrimitive),
            Some(Primitive::CurrentJiffy) => match memory.reserve() {
                Err(error) => Err(error),
                Ok(_) => {
                    let ghost mid = memory@;
                    let told = self.clock.current_jiffy();

                    assert(self.clock.telling(told));
                    match told {
                        None => Err(Error::Clock),
                        Some(time) => memory.push(Value::Number(time)),
                    }
                },
            },
        }
    }
}

} // verus!
