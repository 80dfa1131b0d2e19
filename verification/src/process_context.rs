//! The command line and the environment of a process, and the primitives
//! that give them to a program.

pub mod context;
pub mod primitive;
pub mod void;

pub use context::ProcessContext;
pub use primitive::{Primitive, ProcessContextPrimitiveSet};
pub use void::VoidProcessContext;
