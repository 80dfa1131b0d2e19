use super::record_type::RecordType;
use super::trace::write_record;
use crate::time::Clock;
use crate::vm::memory::Memory;
use crate::vm::number::Number;
use crate::vm::profiler::{Event, Profiler};
use vstd::prelude::*;

verus! {

/// An observer that writes a record of each call and each return, with the
/// time since it was made.
pub struct WriteProfiler<T: Clock> {
    clock: T,
    start: u64,
    buffer: Vec<u8>,
}

/// The time from a start to what a clock tells: zero where the clock cannot
/// tell or has gone back.
pub open spec fn elapsed(start: u64, told: Option<Number>) -> u64 {
    match told {
        Some(time) => if time.0 >= start {
            (time.0 - start) as u64
        } else {
            0
        },
        None => 0,
    }
}

impl<T: Clock> WriteProfiler<T> {
    /// Creates an observer with a clock and notes the time that the clock
    /// tells, or zero where it cannot tell.
    pub fn new(clock: T) -> (result: Self)
        ensures
            result.written() == Seq::<u8>::empty(),
            result.clock() == clock,
            exists|told: Option<Number>|
                #[trigger] clock.telling(told) && result.start() == elapsed(0, told),
    {
        let told = clock.current_jiffy();
        let start = match told {
            Some(time) => time.to_u64(),
            None => 0,
        };

        assert(clock.telling(told) && start == elapsed(0, told));
        WriteProfiler { clock, start, buffer: Vec::new() }
    }

    /// The clock of the observer.
    pub closed spec fn clock(&self) -> T {
        self.clock
    }

    /// The time that the observer noted when it was made.
    pub closed spec fn start(&self) -> u64 {
        self.start
    }

    /// The observer has written a record of a type behind what it had
    /// written, with the time from its start to what its clock told, and is
    /// else as it was.
    pub open spec fn recorded(
        self,
        memory: crate::vm::model::MemoryView,
        record_type: RecordType,
        after: Self,
    ) -> bool {
        &&& after.clock() == self.clock()
        &&& after.start() == self.start()
        &&& exists|told: Option<Number>|
            {
                &&& #[trigger] self.clock().telling(told)
                &&& after.written() == self.written() + memory.record_line(
                    record_type,
                    elapsed(self.start(), told),
                )
            }
    }

    /// The bytes written so far.
    pub closed spec fn written(&self) -> Seq<u8> {
        self.buffer@
    }

    /// Returns the bytes written so far.
    pub fn buffer(&self) -> (result: &Vec<u8>)
        ensures
            result@ == self.written(),
    {
        &self.buffer
    }

    /// Returns the bytes written so far and starts anew.
    pub fn take(&mut self) -> (result: Vec<u8>)
        ensures
            result@ == old(self).written(),
            final(self).written() == Seq::<u8>::empty(),
            final(self).clock() == old(self).clock(),
            final(self).start() == old(self).start(),
    {
        let mut result = Vec::new();

        std::mem::swap(&mut result, &mut self.buffer);
        result
    }

    /// Returns the time since the observer was made: zero where the clock
    /// cannot tell or has gone back.
    fn time(&self) -> (result: u64)
        ensures
            exists|told: Option<Number>|
                #[trigger] self.clock().telling(told) && result == elapsed(self.start(), told),
    {
        let told = self.clock.current_jiffy();

        assert(self.clock().telling(told));
        match told {
            Some(time) => if time.to_u64() >= self.start {
                time.to_u64() - self.start
            } else {
                0
            },
            None => 0,
        }
    }

    /// Writes a record of a type.
    fn write(&mut self, memory: &Memory, record_type: RecordType)
        requires
            memory@.wf(),
        ensures
            (*old(self)).recorded(memory@, record_type, *final(self)),
    {
        let time = self.time();
        let ghost told = choose|told: Option<Number>|
            #[trigger] self.clock().telling(told) && time == elapsed(self.start(), told);

        write_record(&mut self.buffer, memory, record_type, time);
        assert(old(self).clock().telling(told));
        assert(self.written() == old(self).written() + memory@.record_line(
            record_type,
            elapsed(old(self).start(), told),
        ));
    }
}

/// The type of the record of an event.
pub open spec fn record_type(event: Event) -> RecordType {
    match event {
        Event::Call => RecordType::Call,
        Event::ReturnCall => RecordType::ReturnCall,
        Event::Return => RecordType::Return,
    }
}

impl<T: Clock> Profiler for WriteProfiler<T> {
    /// The observer writes a record of each event that it is told of.
    open spec fn told(
        self,
        memory: crate::vm::model::MemoryView,
        event: Event,
        after: Self,
    ) -> bool {
        self.recorded(memory, record_type(event), after)
    }

    fn profile_call(&mut self, memory: &Memory) {
        self.write(memory, RecordType::Call)
    }

    fn profile_return_call(&mut self, memory: &Memory) {
        self.write(memory, RecordType::ReturnCall)
    }

    fn profile_return(&mut self, memory: &Memory) {
        self.write(memory, RecordType::Return)
    }
}

} // verus!
