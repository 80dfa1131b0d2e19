use crate::vm::engine::PrimitiveSet;
use crate::vm::error::Error;
use crate::vm::memory::Memory;
use crate::vm::model::MemoryView;
use vstd::prelude::*;

verus! {

/// Two sets of primitives as one.  The numbers are parted in two bands: the
/// numbers below the base are those of the first set, and a number from the
/// base on is a primitive of the second set, by what it is above the base.
pub struct CompositePrimitiveSet<A: PrimitiveSet, B: PrimitiveSet> {
    pub first: A,
    pub second: B,
    pub base: u64,
}

impl<A: PrimitiveSet, B: PrimitiveSet> CompositePrimitiveSet<A, B> {
    /// Creates a set of two sets, the second from a base on.
    pub fn new(first: A, second: B, base: u64) -> (result: Self)
        ensures
            result.first == first,
            result.second == second,
            result.base == base,
    {
        CompositePrimitiveSet { first, second, base }
    }
}

impl<A: PrimitiveSet, B: PrimitiveSet> PrimitiveSet for CompositePrimitiveSet<A, B> {
    /// Every number is the primitive of one of the two sets, which one by
    /// the base alone; the other set and the base stay as they are.
    open spec fn operation(
        self,
        memory: MemoryView,
        primitive: u64,
        after: Self,
        new: MemoryView,
        result: Result<(), Error>,
    ) -> bool {
        &&& after.base == self.base
        &&& if primitive < self.base {
            after.second == self.second && self.first.operation(
                memory,
                primitive,
                after.first,
                new,
                result,
            )
        } else {
            after.first == self.first && self.second.operation(
                memory,
                (primitive - self.base) as u64,
                after.second,
                new,
                result,
            )
        }
    }

    fn operate(&mut self, memory: &mut Memory, primitive: u64) -> (result: Result<(), Error>) {
        if primitive < self.base {
            self.first.operate(memory, primitive)
        } else {
            self.second.operate(memory, primitive - self.base)
        }
    }
}

} // verus!
