use vstd::prelude::*;

verus! {

/// An error of the virtual machine.
#[derive(Clone, Copy, Debug, PartialEq, Eq, Structural)]
pub enum Error {
    /// A procedure was applied to a number of arguments other than the one
    /// it declares.
    ArgumentCount,
    /// A clock could not tell the time.
    Clock,
    /// The bytes of a program could not be decoded.
    Code(crate::code::Error),
    /// A reference to a cons cell was expected and a number found.
    ConsExpected,
    /// A division by zero.
    DivisionByZero,
    /// A file system failed, or a number stands for no file.
    File,
    /// A primitive has ended the run.
    Halt,
    /// An instruction with an unknown opcode.
    IllegalInstruction,
    /// A primitive with an unknown identifier.
    IllegalPrimitive,
    /// A number was expected and a reference to a cons cell found.
    NumberExpected,
    /// The heap is full of live cells.
    OutOfMemory,
    /// A device failed to read its input.
    ReadInput,
    /// A value was popped from an empty stack.
    StackUnderflow,
    /// A device failed to write its output for errors.
    WriteError,
    /// A device failed to write its output.
    WriteOutput,
}

} // verus!
