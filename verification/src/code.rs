//! The instructions of a program and their encoding in bytes.

pub mod decode;
pub mod display;
pub mod encode;
pub mod error;
pub mod format;
pub mod instruction;
pub mod laws;
pub mod program;

pub use decode::decode;
pub use encode::encode;
pub use error::Error;
pub use format::{INSTRUCTION_BITS, INSTRUCTION_MASK, INTEGER_BASE, SHORT_INTEGER_BASE};
pub use instruction::{Instruction, InstructionView, Operand};
pub use program::{Program, ProgramView};
