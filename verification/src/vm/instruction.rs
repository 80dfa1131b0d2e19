use vstd::prelude::*;

verus! {

/// The opcode of an instruction that pushes its operand.
pub const CONSTANT: u8 = 0;

/// The opcode of an instruction that pushes the value of a variable.
pub const GET: u8 = 1;

/// The opcode of an instruction that pops a value into a variable.
pub const SET: u8 = 2;

/// The opcode of an instruction that pops a value and branches on it.
pub const IF: u8 = 3;

/// The opcode of an instruction that does nothing.
pub const NOP: u8 = 4;

/// The opcode of an instruction that applies a procedure.
pub const APPLY: u8 = 5;

/// The opcode of an instruction that jumps to its successor.
pub const SKIP: u8 = 7;

/// The opcode of an instruction that ends a run.
pub const HALT: u8 = 9;

/// The tag on the second slot of a stack cell that marks the boundary of a
/// call that is no tail call.
pub const FRAME_TAG: u8 = 1;

/// The tag on the second slot of the cell of a variable that refers to its
/// name: a string of the bytes of the name.
pub const SYMBOL_TAG: u8 = 3;

} // verus!
