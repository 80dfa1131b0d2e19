//! The virtual machine: values, memory, collector and execution engine.

pub mod cons;
pub mod engine;
pub mod error;
pub mod instruction;
pub mod laws;
pub mod loading;
pub mod memory;
pub mod model;
pub mod number;
pub mod profiler;
pub mod semantics;
pub mod strings;
pub mod value;

pub use cons::Cons;
pub use engine::{PrimitiveSet, Vm};
pub use error::Error;
pub use memory::Memory;
pub use model::{MemoryView, Relocation};
pub use number::Number;
pub use profiler::{Event, Profiler};
pub use value::Value;
