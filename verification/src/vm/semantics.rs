//! What the instructions do, as functions on the model of a memory.
//!
//! An instruction is a cell: its first slot holds the operand, its second
//! slot refers to the next instruction under the tag of the opcode.  The
//! stack is a list of cells.  A cell of the stack whose second slot carries
//! the frame tag is a frame: its first slot refers to a cell of the
//! instruction that called and the stack to return with, and its second slot
//! to the environment of the procedure that runs.  A procedure is a cell of a
//! code and an environment; a code is a cell of the number of parameters and
//! the first instruction.

use super::cons::Cons;
use super::error::Error;
use super::instruction::{APPLY, CONSTANT, FRAME_TAG, GET, HALT, IF, NOP, SET, SKIP};
use super::model::MemoryView;
use super::number::Number;
use super::value::Value;
use vstd::prelude::*;

verus! {

/// What a procedure call found: the cells that it works on.
pub struct Call {
    /// The first instruction of the procedure.
    pub body: Cons,
    /// The environment of the procedure.
    pub environment: Cons,
    /// The number of arguments.
    pub count: u64,
    /// The cell of the argument that was pushed first, or the cell of the
    /// number of arguments where there is no argument.
    pub last: Cons,
    /// The stack under the arguments.
    pub rest: Cons,
}

/// A memory and what an instruction returned: an instruction returns
/// whether it ended the run.
pub type Outcome = (MemoryView, Result<bool, Error>);

impl MemoryView {
    /// The reference in the second slot of the program counter's cell: its
    /// tag is the opcode of the instruction, its cell the next instruction.
    pub open spec fn instruction(self) -> Result<Cons, Error> {
        match self.cdr(self.code) {
            Value::Cons(next) => Ok(next),
            Value::Number(_) => Err(Error::ConsExpected),
        }
    }

    /// The program counter moves on to the next instruction.
    pub open spec fn advanced(self) -> Outcome {
        match self.cdr(self.code) {
            Value::Cons(next) => (self.with_code(next), Ok(false)),
            Value::Number(_) => (self, Err(Error::ConsExpected)),
        }
    }

    /// The cell that the operand of the instruction stands for: the cell
    /// that it refers to, or the cell of the stack as far down as its number
    /// says.
    pub open spec fn operand(self) -> Result<Cons, Error> {
        match self.car(self.code) {
            Value::Cons(cell) => Ok(cell),
            Value::Number(index) => match self.tail(self.stack, index.0 as nat) {
                Some(cell) => Ok(cell),
                None => Err(Error::ConsExpected),
            },
        }
    }

    /// The frame on a list: the first cell, at most `limit` cells down,
    /// whose second slot carries the frame tag.
    pub open spec fn frame(self, list: Cons, limit: nat) -> Result<Cons, Error>
        decreases limit,
    {
        match self.cdr(list) {
            Value::Number(_) => Err(Error::ConsExpected),
            Value::Cons(next) => if next.tag == FRAME_TAG {
                Ok(list)
            } else if limit == 0 {
                Err(Error::StackUnderflow)
            } else {
                self.frame(next, (limit - 1) as nat)
            },
        }
    }

    /// An instruction that pushes a value and moves on, with no collection.
    pub open spec fn push_step(self, value: Value) -> Outcome {
        self.pushed(value).advanced()
    }

    /// The instruction that pushes the value of a variable.
    pub open spec fn get_step(self) -> Outcome {
        match self.operand() {
            Ok(cell) => self.push_step(self.car(cell)),
            Err(error) => (self, Err(error)),
        }
    }

    /// The instruction that pops a value into a variable.  The variable is
    /// looked for after the value was popped.
    pub open spec fn set_step(self) -> Outcome {
        match self.top_result() {
            Ok(value) => match self.popped().operand() {
                Ok(cell) => self.popped().with_car(cell, value).advanced(),
                Err(error) => (self.popped(), Err(error)),
            },
            Err(error) => (self, Err(error)),
        }
    }

    /// The instruction that pops a value and goes on at the first slot of
    /// its cell where the value is the sentinel for truth, and else at the
    /// second slot.
    pub open spec fn if_step(self) -> Outcome {
        match self.top_result() {
            Ok(value) => {
                let memory = self.popped();
                let target = if value == Value::Cons(memory.yes) {
                    memory.car(memory.code)
                } else {
                    memory.cdr(memory.code)
                };
                match target {
                    Value::Cons(next) => (memory.with_code(next), Ok(false)),
                    Value::Number(_) => (memory, Err(Error::ConsExpected)),
                }
            },
            Err(error) => (self, Err(error)),
        }
    }

    /// The instruction applies its procedure in a tail call: no instruction
    /// follows it.
    pub open spec fn is_tail(self) -> bool {
        match self.instruction() {
            Ok(next) => next.index == self.null.index,
            Err(_) => false,
        }
    }

    /// What the instruction applies: the value of its variable.
    pub open spec fn procedure(self) -> Result<Value, Error> {
        match self.operand() {
            Ok(cell) => Ok(self.car(cell)),
            Err(error) => Err(error),
        }
    }

    /// What a call of a procedure finds.  The procedure is a cell of a code
    /// and an environment, the code a cell of the number of parameters and the
    /// first instruction.  The number of arguments is on top of the stack and
    /// must be the number of parameters; under it are the arguments.
    pub open spec fn call(self, procedure: Cons) -> Result<Call, Error> {
        if !(self.car(procedure) is Cons) {
            Err(Error::ConsExpected)
        } else if !(self.car(self.car(procedure)->Cons_0) is Number) {
            Err(Error::NumberExpected)
        } else if !(self.cdr(self.car(procedure)->Cons_0) is Cons) {
            Err(Error::ConsExpected)
        } else if !(self.cdr(procedure) is Cons) {
            Err(Error::ConsExpected)
        } else if self.stack == self.null {
            Err(Error::StackUnderflow)
        } else if !(self.car(self.stack) is Number) {
            Err(Error::NumberExpected)
        } else if self.car(self.stack) != self.car(self.car(procedure)->Cons_0) {
            Err(Error::ArgumentCount)
        } else {
            let count = self.car(self.stack)->Number_0.0;
            match self.tail(self.stack, count as nat) {
                None => Err(Error::ConsExpected),
                Some(last) => match self.cdr(last) {
                    Value::Number(_) => Err(Error::ConsExpected),
                    Value::Cons(rest) => Ok(
                        Call {
                            body: self.cdr(self.car(procedure)->Cons_0)->Cons_0,
                            environment: self.cdr(procedure)->Cons_0,
                            count,
                            last,
                            rest,
                        },
                    ),
                },
            }
        }
    }

    /// The stack of a procedure that was called: the arguments, or the frame
    /// where there is none.
    pub open spec fn arguments(self, call: Call, frame: Cons) -> Cons {
        if call.count == 0 {
            frame.with_tag(0)
        } else {
            self.cdr(self.stack)->Cons_0
        }
    }

    /// A call that is no tail call, with room for a cell: the cell of the
    /// number of arguments becomes the frame.  Its first slot refers to a new
    /// cell of the instruction that calls and the stack under the arguments, its
    /// second slot to the environment under the frame tag; the argument
    /// pushed first is followed by the frame, and the first instruction of the
    /// procedure comes next.
    pub open spec fn called(self, call: Call) -> MemoryView {
        let frame = self.stack;
        let memory = self.with_cell(Value::Cons(self.code), Value::Cons(call.rest));
        MemoryView {
            code: call.body,
            stack: self.arguments(call, frame),
            ..memory.with_car(frame, Value::Cons(self.next())).with_cdr(
                call.last,
                Value::Cons(frame.with_tag(0)),
            ).with_cdr(frame, Value::Cons(call.environment.with_tag(FRAME_TAG)))
        }
    }

    /// A tail call: the frame of the caller is kept, with what its first slot
    /// refers to.  The argument pushed first is followed by that frame, whose
    /// second slot now refers to the environment of the procedure, and the
    /// first instruction of the procedure comes next.  Nothing is allocated.
    pub open spec fn jumped(self, call: Call, frame: Cons) -> MemoryView {
        MemoryView {
            code: call.body,
            stack: self.arguments(call, frame),
            ..self.with_cdr(call.last, Value::Cons(frame.with_tag(0))).with_cdr(
                frame,
                Value::Cons(call.environment.with_tag(FRAME_TAG)),
            )
        }
    }

    /// The instruction that applies a procedure, where the procedure is a
    /// cell and the space has room for one more.
    pub open spec fn call_step(self, procedure: Cons) -> Outcome {
        match self.call(procedure) {
            Err(error) => (self, Err(error)),
            Ok(call) => if self.is_tail() {
                match self.frame(self.stack, (self.used / 2) as nat) {
                    Err(error) => (self, Err(error)),
                    Ok(frame) => (self.jumped(call, frame), Ok(false)),
                }
            } else if self.full() {
                (self, Err(Error::OutOfMemory))
            } else {
                (self.called(call), Ok(false))
            },
        }
    }

    /// What follows a primitive that was applied in a tail call: the return
    /// to the caller.  The frame is looked for from the top of the stack; the
    /// cell that its first slot refers to holds the instruction that called,
    /// behind which the run goes on, and the stack to go on with, under the
    /// value on top of the stack.
    pub open spec fn returned(self) -> Outcome {
        if self.stack == self.null {
            (self, Err(Error::StackUnderflow))
        } else {
            match self.frame(self.stack, (self.used / 2) as nat) {
                Err(error) => (self, Err(error)),
                Ok(frame) => match self.car(frame) {
                    Value::Number(_) => (self, Err(Error::ConsExpected)),
                    Value::Cons(saved) => match self.car(saved) {
                        Value::Number(_) => (self, Err(Error::ConsExpected)),
                        Value::Cons(caller) => match self.cdr(caller) {
                            Value::Number(_) => (self, Err(Error::ConsExpected)),
                            Value::Cons(next) => (
                                self.with_cdr(self.stack, self.cdr(saved)).with_code(next),
                                Ok(false),
                            ),
                        },
                    },
                },
            }
        }
    }

    /// What follows a primitive that was applied: the return to the caller
    /// after a tail call, and else the next instruction.
    pub open spec fn resumed(self, tail: bool) -> Outcome {
        if tail {
            self.returned()
        } else {
            self.advanced()
        }
    }

    /// The instruction needs room for a cell: it pushes a value, or it calls
    /// a procedure in a call that is no tail call.
    pub open spec fn needs_room(self) -> bool {
        match self.instruction() {
            Err(_) => false,
            Ok(next) => next.tag == CONSTANT || next.tag == GET || (next.tag == APPLY
                && !self.is_tail() && match self.procedure() {
                Ok(Value::Cons(procedure)) => self.call(procedure) is Ok,
                _ => false,
            }),
        }
    }

    /// The primitive that the instruction applies, if it applies one: the
    /// number that its variable holds.
    pub open spec fn primitive(self) -> Option<Number> {
        match self.instruction() {
            Err(_) => None,
            Ok(next) => if next.tag == APPLY {
                match self.procedure() {
                    Ok(Value::Number(primitive)) => Some(primitive),
                    _ => None,
                }
            } else {
                None
            },
        }
    }

    /// What an instruction that applies no primitive makes of the memory and
    /// returns, where the space has room for what it allocates.
    pub open spec fn step(self) -> Outcome {
        match self.instruction() {
            Err(error) => (self, Err(error)),
            Ok(next) => if next.tag == CONSTANT {
                if self.full() {
                    (self, Err(Error::OutOfMemory))
                } else {
                    self.push_step(self.car(self.code))
                }
            } else if next.tag == GET {
                if self.full() {
                    (self, Err(Error::OutOfMemory))
                } else {
                    self.get_step()
                }
            } else if next.tag == SET {
                self.set_step()
            } else if next.tag == IF {
                self.if_step()
            } else if next.tag == NOP || next.tag == SKIP {
                self.advanced()
            } else if next.tag == HALT {
                (self, Ok(true))
            } else if next.tag == APPLY {
                match self.procedure() {
                    Err(error) => (self, Err(error)),
                    Ok(Value::Cons(procedure)) => self.call_step(procedure),
                    Ok(Value::Number(_)) => (self, Err(Error::IllegalPrimitive)),
                }
            } else {
                (self, Err(Error::IllegalInstruction))
            },
        }
    }

    /// The space has room for a number of cells.
    pub open spec fn room(self, cells: nat) -> bool {
        self.used + 2 * cells <= self.size
    }

    /// What making room for a number of cells makes of the memory and
    /// returns: nothing while the space has the room; else garbage is
    /// collected, and it fails where the live cells leave less.
    pub open spec fn reserving_cells(
        self,
        cells: nat,
        new: MemoryView,
        result: Result<(), Error>,
    ) -> bool {
        if self.room(cells) {
            new == self && result == Ok::<(), Error>(())
        } else {
            &&& exists|r: super::model::Relocation| #[trigger]
                self.collected(Value::Number(Number(0)), Value::Number(Number(0)), r, new)
            &&& result == if new.room(cells) {
                Ok::<(), Error>(())
            } else {
                Err::<(), Error>(Error::OutOfMemory)
            }
        }
    }

    /// What making room for a cell makes of the memory and returns: nothing
    /// while the space has room; else garbage is collected, and it fails where
    /// the live cells fill the space.
    pub open spec fn reserving(self, new: MemoryView, result: Result<(), Error>) -> bool {
        if !self.full() {
            new == self && result == Ok::<(), Error>(())
        } else {
            &&& exists|r: super::model::Relocation| #[trigger]
                self.collected(Value::Number(Number(0)), Value::Number(Number(0)), r, new)
            &&& result == if new.full() {
                Err::<(), Error>(Error::OutOfMemory)
            } else {
                Ok::<(), Error>(())
            }
        }
    }
}

} // verus!
