//! The small set of primitives: cells, numbers, the stack and a device.
//!
//! A primitive finds its arguments on the stack, the one pushed last on top,
//! and leaves its result in their place.  A primitive that allocates a cell
//! makes room first.

use crate::device::{Device, DeviceError};
use crate::vm::cons::Cons;
use crate::vm::engine::PrimitiveSet;
use crate::vm::error::Error;
use crate::vm::memory::Memory;
use crate::vm::model::MemoryView;
use crate::vm::number::Number;
use crate::vm::value::Value;
use vstd::prelude::*;
use vstd::wrapping::u64_specs::{wrapping_add, wrapping_mul, wrapping_sub};

verus! {

/// Makes a cell of a first slot, a second slot and a tag for the second.
pub const RIB: u64 = 0;

/// Makes a cell of two values.
pub const CONS: u64 = 1;

/// Makes a procedure of a code and the stack under it.
pub const CLOSE: u64 = 2;

/// Tells whether a value refers to a cell.
pub const IS_CONS: u64 = 3;

/// Returns the first slot of a cell.
pub const CAR: u64 = 4;

/// Returns the second slot of a cell.
pub const CDR: u64 = 5;

/// Returns the tag on the second slot of a cell.
pub const TAG: u64 = 6;

/// Stores a value in the first slot of a cell.
pub const SET_CAR: u64 = 7;

/// Stores a value in the second slot of a cell.
pub const SET_CDR: u64 = 8;

/// Tells whether two values are the same.
pub const EQUAL: u64 = 10;

/// Tells whether a number is less than another.
pub const LESS_THAN: u64 = 11;

/// Adds two numbers.
pub const ADD: u64 = 12;

/// Subtracts a number from another.
pub const SUBTRACT: u64 = 13;

/// Multiplies two numbers.
pub const MULTIPLY: u64 = 14;

/// Divides a number by another.
pub const DIVIDE: u64 = 15;

/// Reads a byte from the device.
pub const READ: u64 = 16;

/// Writes a byte to the output of the device.
pub const WRITE: u64 = 17;

/// Writes a byte to the output for errors of the device.
pub const WRITE_ERROR: u64 = 18;

/// Ends the run: it fails with the error that says so, and changes nothing.
pub const HALT: u64 = 19;

/// Returns the tag on the first slot of a cell.
pub const TYPE: u64 = 20;

/// Leaves the stack as it is.
pub const ID: u64 = 22;

/// Pops a value.
pub const POP: u64 = 23;

/// Drops the value under the top of the stack.
pub const SKIP: u64 = 24;

/// Returns the remainder of a division.
pub const REMAINDER: u64 = 25;

/// Finds the rest of a list that starts with a value.
pub const MEMQ: u64 = 26;

/// Finds the pair of a list of pairs that starts with a value.
pub const ASSQ: u64 = 27;

/// Tells whether a value is the empty list.
pub const NULL: u64 = 28;

/// Tells whether a value is a pair: a reference to a cell whose second slot
/// carries no tag.
pub const PAIR: u64 = 29;

/// A memory and what a primitive returned.
pub type Operated = (MemoryView, Result<(), Error>);

/// The byte that a number is written as: its lowest eight bits.
pub open spec fn byte_of(number: Number) -> u8 {
    (number.0 % 256) as u8
}

/// What a primitive of two numbers returns.
pub open spec fn arithmetic(primitive: u64, x: u64, y: u64) -> Result<u64, Error> {
    if primitive == ADD {
        Ok(wrapping_add(x, y))
    } else if primitive == SUBTRACT {
        Ok(wrapping_sub(x, y))
    } else if primitive == MULTIPLY {
        Ok(wrapping_mul(x, y))
    } else if y == 0 {
        Err(Error::DivisionByZero)
    } else if primitive == DIVIDE {
        Ok(x / y)
    } else {
        Ok(x % y)
    }
}

impl MemoryView {
    /// The value on top of the stack.
    pub open spec fn top_value(self) -> Result<Value, Error> {
        if self.stack == self.null {
            Err(Error::StackUnderflow)
        } else {
            Ok(self.car(self.stack))
        }
    }

    /// The memory with a result in place of the value on top of the stack,
    /// or the failure.
    pub open spec fn replaced(self, result: Result<Value, Error>) -> Operated {
        match result {
            Ok(value) => (self.with_car(self.stack, value), Ok(())),
            Err(error) => (self, Err(error)),
        }
    }

    /// The tag on a value: the tag of a reference, and zero for a number.
    pub open spec fn tag_of(value: Value) -> Value {
        match value {
            Value::Cons(cons) => Value::Number(Number(cons.tag as u64)),
            Value::Number(_) => Value::Number(Number(0)),
        }
    }

    /// What a primitive of one argument returns for a value.
    pub open spec fn unary(self, primitive: u64, x: Value) -> Result<Value, Error> {
        if primitive == IS_CONS {
            Ok(Value::Cons(self.boolean(x is Cons)))
        } else if primitive == NULL {
            Ok(Value::Cons(self.boolean(x == Value::Cons(self.null))))
        } else if primitive == PAIR {
            Ok(
                Value::Cons(
                    self.boolean(
                        match x {
                            Value::Cons(cons) => Self::tag_of(self.cdr(cons)) == Value::Number(
                                Number(0),
                            ),
                            Value::Number(_) => false,
                        },
                    ),
                ),
            )
        } else {
            match x {
                Value::Number(_) => Err(Error::ConsExpected),
                Value::Cons(cons) => Ok(
                    if primitive == CAR {
                        self.car(cons)
                    } else if primitive == CDR {
                        self.cdr(cons)
                    } else if primitive == TYPE {
                        Self::tag_of(self.car(cons))
                    } else {
                        Self::tag_of(self.cdr(cons))
                    },
                ),
            }
        }
    }

    /// The rest of a list that starts with a value, looked for in at most
    /// `limit` cells: the sentinel for falsity where the list ends before.
    pub open spec fn memq(self, x: Value, list: Cons, limit: nat) -> Result<Value, Error>
        decreases limit,
    {
        if list == self.null || limit == 0 {
            Ok(Value::Cons(self.no))
        } else if self.car(list) == x {
            Ok(Value::Cons(list))
        } else {
            match self.cdr(list) {
                Value::Cons(rest) => self.memq(x, rest, (limit - 1) as nat),
                Value::Number(_) => Err(Error::ConsExpected),
            }
        }
    }

    /// The pair of a list of pairs whose first slot holds a value, looked
    /// for in at most `limit` cells: the sentinel for falsity where the list
    /// ends before.
    pub open spec fn assq(self, x: Value, list: Cons, limit: nat) -> Result<Value, Error>
        decreases limit,
    {
        if list == self.null || limit == 0 {
            Ok(Value::Cons(self.no))
        } else {
            match self.car(list) {
                Value::Number(_) => Err(Error::ConsExpected),
                Value::Cons(pair) => if self.car(pair) == x {
                    Ok(Value::Cons(pair))
                } else {
                    match self.cdr(list) {
                        Value::Cons(rest) => self.assq(x, rest, (limit - 1) as nat),
                        Value::Number(_) => Err(Error::ConsExpected),
                    }
                },
            }
        }
    }

    /// What a primitive of two arguments makes of the memory and returns for
    /// two values, the second the one that was on top.
    pub open spec fn binary(self, primitive: u64, x: Value, y: Value) -> (
        MemoryView,
        Result<Value, Error>,
    ) {
        if primitive == CONS {
            (self.with_cell(x, y), Ok(Value::Cons(self.next())))
        } else if primitive == EQUAL {
            (self, Ok(Value::Cons(self.boolean(x == y))))
        } else if primitive == SKIP {
            (self, Ok(y))
        } else if primitive == SET_CAR || primitive == SET_CDR {
            match x {
                Value::Number(_) => (self, Err(Error::ConsExpected)),
                Value::Cons(cons) => (
                    if primitive == SET_CAR {
                        self.with_car(cons, y)
                    } else {
                        self.with_cdr(cons, y)
                    },
                    Ok(y),
                ),
            }
        } else if primitive == MEMQ || primitive == ASSQ {
            match y {
                Value::Number(_) => (self, Err(Error::ConsExpected)),
                Value::Cons(list) => (
                    self,
                    if primitive == MEMQ {
                        self.memq(x, list, (self.used / 2) as nat)
                    } else {
                        self.assq(x, list, (self.used / 2) as nat)
                    },
                ),
            }
        } else {
            match (x, y) {
                (Value::Number(a), Value::Number(b)) => if primitive == LESS_THAN {
                    (self, Ok(Value::Cons(self.boolean(a.0 < b.0))))
                } else {
                    match arithmetic(primitive, a.0, b.0) {
                        Ok(number) => (self, Ok(Value::Number(Number(number)))),
                        Err(error) => (self, Err(error)),
                    }
                },
                _ => (self, Err(Error::NumberExpected)),
            }
        }
    }

    /// The primitive takes one argument.
    pub open spec fn is_unary(primitive: u64) -> bool {
        primitive == IS_CONS || primitive == CAR || primitive == CDR || primitive == TAG
            || primitive == TYPE || primitive == NULL || primitive == PAIR
    }

    /// The primitive takes two arguments.
    pub open spec fn is_binary(primitive: u64) -> bool {
        primitive == CONS || primitive == SET_CAR || primitive == SET_CDR || primitive == EQUAL
            || primitive == LESS_THAN || primitive == ADD || primitive == SUBTRACT || primitive
            == MULTIPLY || primitive == DIVIDE || primitive == REMAINDER || primitive == SKIP
            || primitive == MEMQ || primitive == ASSQ
    }

    /// The primitive allocates a cell.
    pub open spec fn allocates(primitive: u64) -> bool {
        primitive == RIB || primitive == CONS || primitive == CLOSE || primitive == READ
    }

    /// What a primitive of one argument makes of the memory and returns.
    pub open spec fn operated_unary(self, primitive: u64) -> Operated {
        match self.top_value() {
            Ok(x) => self.replaced(self.unary(primitive, x)),
            Err(error) => (self, Err(error)),
        }
    }

    /// What a primitive of two arguments makes of the memory and returns: the
    /// argument on top is popped, and the result takes the place of the other.
    pub open spec fn operated_binary(self, primitive: u64) -> Operated {
        match self.top_result() {
            Err(error) => (self, Err(error)),
            Ok(y) => match self.popped().top_value() {
                Err(error) => (self.popped(), Err(error)),
                Ok(x) => {
                    let (memory, result) = self.popped().binary(primitive, x, y);
                    memory.replaced(result)
                },
            },
        }
    }

    /// What the primitive that makes a cell with a tag makes of the memory
    /// and returns.  The tag is on top of the stack, the second slot under it
    /// and the first slot under that; the tag goes on the second slot.
    pub open spec fn operated_rib(self) -> Operated {
        match self.top_many(2) {
            Err(error) => (self.popped_many(2), Err(error)),
            Ok(values) => {
                let memory = self.popped_many(2);
                match (memory.top_value(), values[1]) {
                    (Err(error), _) => (memory, Err(error)),
                    (Ok(_), Value::Cons(_)) => (memory, Err(Error::NumberExpected)),
                    (Ok(car), Value::Number(tag)) => memory.with_cell(
                        car,
                        values[0].with_tag(byte_of(tag)),
                    ).replaced(Ok(Value::Cons(memory.next()))),
                }
            },
        }
    }

    /// What the primitive that makes a procedure makes of the memory and
    /// returns: the code on top of the stack gives way to a cell of the code
    /// and the stack under it.
    pub open spec fn operated_close(self) -> Operated {
        match self.top_value() {
            Err(error) => (self, Err(error)),
            Ok(code) => self.with_cell(code, self.cdr(self.stack)).replaced(
                Ok(Value::Cons(self.next())),
            ),
        }
    }

    /// What a primitive that uses no device makes of the memory and returns,
    /// where the space has room for what it allocates.
    pub open spec fn operated(self, primitive: u64) -> Operated {
        if Self::allocates(primitive) && self.full() {
            (self, Err(Error::OutOfMemory))
        } else if Self::is_unary(primitive) {
            self.operated_unary(primitive)
        } else if Self::is_binary(primitive) {
            self.operated_binary(primitive)
        } else if primitive == RIB {
            self.operated_rib()
        } else if primitive == CLOSE {
            self.operated_close()
        } else if primitive == ID {
            (self, Ok(()))
        } else if primitive == HALT {
            (self, Err(Error::Halt))
        } else if primitive == POP {
            match self.top_result() {
                Ok(_) => (self.popped(), Ok(())),
                Err(error) => (self, Err(error)),
            }
        } else {
            (self, Err(Error::IllegalPrimitive))
        }
    }
}

/// The small set of primitives, on a device.
pub struct SmallPrimitiveSet<T: Device> {
    pub device: T,
}

impl<T: Device> SmallPrimitiveSet<T> {
    /// Creates a set of primitives on a device.
    pub fn new(device: T) -> (result: Self)
        ensures
            result.device == device,
    {
        SmallPrimitiveSet { device }
    }

    /// Returns the device.
    pub fn device(&self) -> (result: &T)
        ensures
            *result == self.device,
    {
        &self.device
    }

    /// Returns the device for change.
    pub fn device_mut(&mut self) -> (result: &mut T)
        ensures
            *result == old(self).device,
            final(self).device == *final(result),
    {
        &mut self.device
    }

    /// Returns the tag on a value as a number.
    fn tag(value: Value) -> (result: Value)
        ensures
            result == MemoryView::tag_of(value),
    {
        match value {
            Value::Cons(cons) => Value::Number(Number::new(cons.tag() as u64)),
            Value::Number(_) => Value::Number(Number::new(0)),
        }
    }

    /// Runs a primitive of one argument on the value on top of the stack.
    fn operate_top(memory: &mut Memory, primitive: u64) -> (result: Result<(), Error>)
        requires
            old(memory)@.wf(),
            MemoryView::is_unary(primitive),
        ensures
            final(memory)@.wf(),
            (final(memory)@, result) == old(memory)@.operated_unary(primitive),
    {
        let x = match memory.top() {
            Ok(x) => x,
            Err(error) => {
                return Err(error);
            },
        };
        let value = if primitive == IS_CONS {
            Value::Cons(memory.boolean(x.is_cons()))
        } else if primitive == NULL {
            Value::Cons(memory.boolean(x == Value::Cons(memory.null())))
        } else if primitive == PAIR {
            match x {
                Value::Cons(cons) => Value::Cons(
                    memory.boolean(
                        Self::tag(memory.cdr(cons)) == Value::Number(Number::new(0)),
                    ),
                ),
                Value::Number(_) => Value::Cons(memory.boolean(false)),
            }
        } else {
            match x {
                Value::Number(_) => {
                    return Err(Error::ConsExpected);
                },
                Value::Cons(cons) => if primitive == CAR {
                    memory.car(cons)
                } else if primitive == CDR {
                    memory.cdr(cons)
                } else if primitive == TYPE {
                    Self::tag(memory.car(cons))
                } else {
                    Self::tag(memory.cdr(cons))
                },
            }
        };
        memory.set_top(value)
    }

    /// Computes a primitive of two numbers.
    fn operate_binary(primitive: u64, x: u64, y: u64) -> (result: Result<u64, Error>)
        ensures
            result == arithmetic(primitive, x, y),
    {
        if primitive == ADD {
            Ok(x.wrapping_add(y))
        } else if primitive == SUBTRACT {
            Ok(x.wrapping_sub(y))
        } else if primitive == MULTIPLY {
            Ok(x.wrapping_mul(y))
        } else if y == 0 {
            Err(Error::DivisionByZero)
        } else if primitive == DIVIDE {
            Ok(x / y)
        } else {
            Ok(x % y)
        }
    }

    /// Looks for the rest of a list that starts with a value.
    fn memq(memory: &Memory, x: Value, list: Cons) -> (result: Result<Value, Error>)
        requires
            memory@.wf(),
            memory@.allocated(list.index as int),
        ensures
            result == memory@.memq(x, list, (memory@.used / 2) as nat),
            result matches Ok(value) ==> memory@.valid(value),
    {
        let mut current = list;
        let mut limit = memory.allocation_index() / 2;

        loop
            invariant
                memory@.wf(),
                memory@.allocated(current.index as int),
                memory@.memq(x, current, limit as nat) == memory@.memq(
                    x,
                    list,
                    (memory@.used / 2) as nat,
                ),
            decreases limit,
        {
            if current == memory.null() || limit == 0 {
                return Ok(Value::Cons(memory.boolean(false)));
            }
            if memory.car(current) == x {
                return Ok(Value::Cons(current));
            }
            match memory.cdr(current) {
                Value::Cons(rest) => {
                    current = rest;
                },
                Value::Number(_) => {
                    return Err(Error::ConsExpected);
                },
            }
            limit = limit - 1;
        }
    }

    /// Looks for the pair of a list of pairs that starts with a value.
    fn assq(memory: &Memory, x: Value, list: Cons) -> (result: Result<Value, Error>)
        requires
            memory@.wf(),
            memory@.allocated(list.index as int),
        ensures
            result == memory@.assq(x, list, (memory@.used / 2) as nat),
            result matches Ok(value) ==> memory@.valid(value),
    {
        let mut current = list;
        let mut limit = memory.allocation_index() / 2;

        loop
            invariant
                memory@.wf(),
                memory@.allocated(current.index as int),
                memory@.assq(x, current, limit as nat) == memory@.assq(
                    x,
                    list,
                    (memory@.used / 2) as nat,
                ),
            decreases limit,
        {
            if current == memory.null() || limit == 0 {
                return Ok(Value::Cons(memory.boolean(false)));
            }
            match memory.car(current) {
                Value::Number(_) => {
                    return Err(Error::ConsExpected);
                },
                Value::Cons(pair) => {
                    if memory.car(pair) == x {
                        return Ok(Value::Cons(pair));
                    }
                },
            }
            match memory.cdr(current) {
                Value::Cons(rest) => {
                    current = rest;
                },
                Value::Number(_) => {
                    return Err(Error::ConsExpected);
                },
            }
            limit = limit - 1;
        }
    }

    /// Runs a primitive of two arguments on the two values on top of the
    /// stack.
    fn operate_pair(memory: &mut Memory, primitive: u64) -> (result: Result<(), Error>)
        requires
            old(memory)@.wf(),
            MemoryView::is_binary(primitive),
            primitive == CONS ==> !old(memory)@.full(),
        ensures
            final(memory)@.wf(),
            (final(memory)@, result) == old(memory)@.operated_binary(primitive),
    {
        let y = match memory.pop() {
            Ok(y) => y,
            Err(error) => {
                return Err(error);
            },
        };
        let x = match memory.top() {
            Ok(x) => x,
            Err(error) => {
                return Err(error);
            },
        };
        let value = if primitive == CONS {
            match memory.allocate(x, y) {
                Ok(cons) => Value::Cons(cons),
                Err(error) => {
                    return Err(error);
                },
            }
        } else if primitive == EQUAL {
            Value::Cons(memory.boolean(x == y))
        } else if primitive == SKIP {
            y
        } else if primitive == SET_CAR || primitive == SET_CDR {
            match x {
                Value::Number(_) => {
                    return Err(Error::ConsExpected);
                },
                Value::Cons(cons) => {
                    if primitive == SET_CAR {
                        memory.set_car(cons, y);
                    } else {
                        memory.set_cdr(cons, y);
                    }
                    y
                },
            }
        } else if primitive == MEMQ || primitive == ASSQ {
            match y {
                Value::Number(_) => {
                    return Err(Error::ConsExpected);
                },
                Value::Cons(list) => {
                    let found = if primitive == MEMQ {
                        Self::memq(memory, x, list)
                    } else {
                        Self::assq(memory, x, list)
                    };
                    match found {
                        Ok(value) => value,
                        Err(error) => {
                            return Err(error);
                        },
                    }
                },
            }
        } else {
            match (x, y) {
                (Value::Number(a), Value::Number(b)) => if primitive == LESS_THAN {
                    Value::Cons(memory.boolean(a.to_u64() < b.to_u64()))
                } else {
                    match Self::operate_binary(primitive, a.to_u64(), b.to_u64()) {
                        Ok(number) => Value::Number(Number::new(number)),
                        Err(error) => {
                            return Err(error);
                        },
                    }
                },
                _ => {
                    return Err(Error::NumberExpected);
                },
            }
        };
        memory.set_top(value)
    }

    /// Makes a cell with a tag on its second slot.
    fn rib(memory: &mut Memory) -> (result: Result<(), Error>)
        requires
            old(memory)@.wf(),
            !old(memory)@.full(),
        ensures
            final(memory)@.wf(),
            (final(memory)@, result) == old(memory)@.operated_rib(),
    {
        let values = match memory.pop_many(2) {
            Ok(values) => values,
            Err(error) => {
                return Err(error);
            },
        };
        let car = match memory.top() {
            Ok(car) => car,
            Err(error) => {
                return Err(error);
            },
        };
        let tag = match values[1] {
            Value::Number(tag) => (tag.to_u64() % 256) as u8,
            Value::Cons(_) => {
                return Err(Error::NumberExpected);
            },
        };
        proof {
            crate::vm::laws::lemma_popped_many_used(old(memory)@, 2);
        }
        match memory.allocate(car, values[0].set_tag(tag)) {
            Ok(cons) => memory.set_top(Value::Cons(cons)),
            Err(error) => Err(error),
        }
    }

    /// Makes a procedure of the code on top of the stack and the stack under
    /// it.
    fn close(memory: &mut Memory) -> (result: Result<(), Error>)
        requires
            old(memory)@.wf(),
            !old(memory)@.full(),
        ensures
            final(memory)@.wf(),
            (final(memory)@, result) == old(memory)@.operated_close(),
    {
        let code = match memory.top() {
            Ok(code) => code,
            Err(error) => {
                return Err(error);
            },
        };
        let environment = memory.cdr(memory.stack());

        match memory.allocate(code, environment) {
            Ok(cons) => memory.set_top(Value::Cons(cons)),
            Err(error) => Err(error),
        }
    }

    /// Runs a primitive that uses no device, where the space has room for
    /// what it allocates.
    fn operate_memory(memory: &mut Memory, primitive: u64) -> (result: Result<(), Error>)
        requires
            old(memory)@.wf(),
        ensures
            final(memory)@.wf(),
            (final(memory)@, result) == old(memory)@.operated(primitive),
    {
        if (primitive == RIB || primitive == CONS || primitive == CLOSE || primitive == READ)
            && memory.allocation_index() == memory.space_size() {
            Err(Error::OutOfMemory)
        } else if primitive == IS_CONS || primitive == CAR || primitive == CDR || primitive == TAG
            || primitive == TYPE || primitive == NULL || primitive == PAIR {
            Self::operate_top(memory, primitive)
        } else if primitive == CONS || primitive == SET_CAR || primitive == SET_CDR || primitive
            == EQUAL || primitive == LESS_THAN || primitive == ADD || primitive == SUBTRACT
            || primitive == MULTIPLY || primitive == DIVIDE || primitive == REMAINDER || primitive
            == SKIP || primitive == MEMQ || primitive == ASSQ {
            Self::operate_pair(memory, primitive)
        } else if primitive == RIB {
            Self::rib(memory)
        } else if primitive == CLOSE {
            Self::close(memory)
        } else if primitive == ID {
            Ok(())
        } else if primitive == HALT {
            Err(Error::Halt)
        } else if primitive == POP {
            match memory.pop() {
                Ok(_) => Ok(()),
                Err(error) => Err(error),
            }
        } else {
            Err(Error::IllegalPrimitive)
        }
    }

    /// Writes the number on top of the stack to the device as a byte.
    fn write(&mut self, memory: &Memory, error: bool) -> (result: Result<(), Error>)
        requires
            memory@.wf(),
        ensures
            writes(*old(self), memory@, error, *final(self), result),
    {
        let byte = match memory.top() {
            Ok(Value::Number(number)) => {
                let byte = (number.to_u64() % 256) as u8;
                assert(byte == byte_of(number));
                byte
            },
            Ok(Value::Cons(_)) => {
                return Err(Error::NumberExpected);
            },
            Err(error) => {
                return Err(error);
            },
        };
        if error {
            let done = self.device.write_error(byte);
            assert(old(self).device.writing_error(byte, self.device, done));
            match done {
                Ok(_) => Ok(()),
                Err(_) => Err(Error::WriteError),
            }
        } else {
            let done = self.device.write(byte);
            assert(old(self).device.writing(byte, self.device, done));
            match done {
                Ok(_) => Ok(()),
                Err(_) => Err(Error::WriteOutput),
            }
        }
    }
}

/// What writing the number on top of the stack makes of the set and
/// returns.  The number stays on the stack.
pub open spec fn writes<T: Device>(
    primitives: SmallPrimitiveSet<T>,
    memory: MemoryView,
    error: bool,
    after: SmallPrimitiveSet<T>,
    result: Result<(), Error>,
) -> bool {
    match memory.top_value() {
        Err(failure) => after == primitives && result == Err::<(), Error>(failure),
        Ok(Value::Cons(_)) => after == primitives && result == Err::<(), Error>(
            Error::NumberExpected,
        ),
        Ok(Value::Number(number)) => if error {
            exists|done: Result<(), DeviceError>|
                {
                    &&& #[trigger] primitives.device.writing_error(
                        byte_of(number),
                        after.device,
                        done,
                    )
                    &&& result == match done {
                        Ok(_) => Ok::<(), Error>(()),
                        Err(_) => Err(Error::WriteError),
                    }
                }
        } else {
            exists|done: Result<(), DeviceError>|
                {
                    &&& #[trigger] primitives.device.writing(byte_of(number), after.device, done)
                    &&& result == match done {
                        Ok(_) => Ok::<(), Error>(()),
                        Err(_) => Err(Error::WriteOutput),
                    }
                }
        },
    }
}

/// What reading a byte makes of the set and of a memory with room, and
/// returns: the byte is pushed as a number, and the sentinel for falsity at
/// the end of the input.
pub open spec fn reads<T: Device>(
    primitives: SmallPrimitiveSet<T>,
    memory: MemoryView,
    after: SmallPrimitiveSet<T>,
    new: MemoryView,
    result: Result<(), Error>,
) -> bool {
    exists|done: Result<Option<u8>, DeviceError>|
        {
            &&& #[trigger] primitives.device.reading(after.device, done)
            &&& match done {
                Err(_) => new == memory && result == Err::<(), Error>(Error::ReadInput),
                Ok(Some(byte)) => new == memory.pushed(Value::Number(Number(byte as u64)))
                    && result == Ok::<(), Error>(()),
                Ok(None) => new == memory.pushed(Value::Cons(memory.no)) && result == Ok::<
                    (),
                    Error,
                >(()),
            }
        }
}

impl<T: Device> PrimitiveSet for SmallPrimitiveSet<T> {
    /// A primitive that allocates a cell makes room first, which collects
    /// garbage where the space is full, and fails where that leaves none.
    /// Reading and writing go to the device; every other primitive is a
    /// function of the memory.
    open spec fn operation(
        self,
        memory: MemoryView,
        primitive: u64,
        after: Self,
        new: MemoryView,
        result: Result<(), Error>,
    ) -> bool {
        if primitive == WRITE || primitive == WRITE_ERROR {
            new == memory && writes(self, memory, primitive == WRITE_ERROR, after, result)
        } else if MemoryView::allocates(primitive) {
            exists|mid: MemoryView, done: Result<(), Error>|
                {
                    &&& #[trigger] memory.reserving(mid, done)
                    &&& match done {
                        Err(error) => after == self && new == mid && result == Err::<(), Error>(
                            error,
                        ),
                        Ok(_) => if primitive == READ {
                            reads(self, mid, after, new, result)
                        } else {
                            after == self && (new, result) == mid.operated(primitive)
                        },
                    }
                }
        } else {
            after == self && (new, result) == memory.operated(primitive)
        }
    }

    fn operate(&mut self, memory: &mut Memory, primitive: u64) -> (result: Result<(), Error>) {
        if primitive == WRITE || primitive == WRITE_ERROR {
            self.write(memory, primitive == WRITE_ERROR)
        } else if primitive == RIB || primitive == CONS || primitive == CLOSE || primitive == READ {
            match memory.reserve() {
                Err(error) => Err(error),
                Ok(_) => if primitive == READ {
                    let ghost mid = memory@;
                    let done = self.device.read();
                    assert(old(self).device.reading(self.device, done));
                    let value = match done {
                        Ok(Some(byte)) => Value::Number(Number::new(byte as u64)),
                        Ok(None) => Value::Cons(memory.boolean(false)),
                        Err(_) => {
                            assert(reads(
                                *old(self),
                                mid,
                                *self,
                                memory@,
                                Err::<(), Error>(Error::ReadInput),
                            ));
                            return Err(Error::ReadInput);
                        },
                    };
                    let result = memory.push(value);
                    assert(reads(*old(self), mid, *self, memory@, result));
                    result
                } else {
                    Self::operate_memory(memory, primitive)
                },
            }
        } else {
            Self::operate_memory(memory, primitive)
        }
    }
}

} // verus!
