//! The set of the primitives of a whole host: the small set, and the
//! primitives of files, of the context of the process and of time, each in a
//! band of the numbers of its own.

use super::composite::CompositePrimitiveSet;
use super::small::SmallPrimitiveSet;
use crate::device::Device;
use crate::file::{FilePrimitiveSet, FileSystem};
use crate::process_context::{ProcessContext, ProcessContextPrimitiveSet};
use crate::time::{Clock, TimePrimitiveSet};
use crate::vm::engine::PrimitiveSet;
use crate::vm::error::Error;
use crate::vm::model::MemoryView;
use vstd::prelude::*;

verus! {

/// The first number of the primitives of files.
pub const FILE_PRIMITIVES: u64 = 100;

/// The first number of the primitives of the context of the process.
pub const PROCESS_CONTEXT_PRIMITIVES: u64 = 200;

/// The first number of the primitives of time.
pub const TIME_PRIMITIVES: u64 = 300;

/// The number of the numbers of a band.
pub const BAND: u64 = 100;

/// The set of the primitives of a whole host.
pub type R7rsPrimitiveSet<D, F, P, C> = CompositePrimitiveSet<
    SmallPrimitiveSet<D>,
    CompositePrimitiveSet<
        FilePrimitiveSet<F>,
        CompositePrimitiveSet<ProcessContextPrimitiveSet<P>, TimePrimitiveSet<C>>,
    >,
>;

/// Creates the set of the primitives of a whole host: the numbers below a
/// hundred are those of the small set, the next hundred those of files, the
/// next hundred those of the context of the process, and the numbers from
/// three hundred on those of time.
pub fn new<D: Device, F: FileSystem, P: ProcessContext, C: Clock>(
    device: D,
    file_system: F,
    process_context: P,
    clock: C,
) -> (result: R7rsPrimitiveSet<D, F, P, C>)
    ensures
        result.base == FILE_PRIMITIVES,
        result.first.device == device,
        result.second.base == BAND,
        result.second.first.file_system == file_system,
        result.second.second.base == BAND,
        result.second.second.first.process_context == process_context,
        result.second.second.second.clock == clock,
{
    CompositePrimitiveSet::new(
        SmallPrimitiveSet::new(device),
        CompositePrimitiveSet::new(
            FilePrimitiveSet::new(file_system),
            CompositePrimitiveSet::new(
                ProcessContextPrimitiveSet::new(process_context),
                TimePrimitiveSet::new(clock),
                BAND,
            ),
            BAND,
        ),
        FILE_PRIMITIVES,
    )
}

/// Which number reaches which set: a primitive of the whole set is the
/// primitive of the set of its band, by what its number is above the first
/// number of the band, and the other sets stay as they are.
pub proof fn lemma_bands<D: Device, F: FileSystem, P: ProcessContext, C: Clock>(
    set: R7rsPrimitiveSet<D, F, P, C>,
    memory: MemoryView,
    primitive: u64,
    after: R7rsPrimitiveSet<D, F, P, C>,
    new: MemoryView,
    result: Result<(), Error>,
)
    requires
        set.base == FILE_PRIMITIVES,
        set.second.base == BAND,
        set.second.second.base == BAND,
        set.operation(memory, primitive, after, new, result),
    ensures
        primitive < FILE_PRIMITIVES ==> set.first.operation(
            memory,
            primitive,
            after.first,
            new,
            result,
        ) && after.second == set.second,
        FILE_PRIMITIVES <= primitive < PROCESS_CONTEXT_PRIMITIVES ==> set.second.first.operation(
            memory,
            (primitive - FILE_PRIMITIVES) as u64,
            after.second.first,
            new,
            result,
        ) && after.first == set.first && after.second.second == set.second.second,
        PROCESS_CONTEXT_PRIMITIVES <= primitive < TIME_PRIMITIVES
            ==> set.second.second.first.operation(
            memory,
            (primitive - PROCESS_CONTEXT_PRIMITIVES) as u64,
            after.second.second.first,
            new,
            result,
        ) && after.first == set.first && after.second.first == set.second.first
            && after.second.second.second == set.second.second.second,
        TIME_PRIMITIVES <= primitive ==> set.second.second.second.operation(
            memory,
            (primitive - TIME_PRIMITIVES) as u64,
            after.second.second.second,
            new,
            result,
        ) && after.first == set.first && after.second.first == set.second.first
            && after.second.second.first == set.second.second.first,
{
}

} // verus!
