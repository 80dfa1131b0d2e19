//! An embeddable Scheme runtime: a bytecode virtual machine over a fixed-size
//! heap of cons cells with a copying garbage collector, the codec of its
//! bytecode format, and the sets of primitives that tie it to a host.
//!
//! - [`vm`] holds the values, the memory with its collector, and the
//!   execution engine.
//! - [`code`] holds the instructions of a program and their encoding in
//!   bytes.
//! - [`primitive`], [`device`], [`file`], [`process_context`] and [`time`]
//!   hold the primitives that a program applies by number, and the traits of
//!   the host that they work on.
//! - [`native`] holds the table of the objects of the host that a program
//!   holds, and the arguments of the functions of the host.
//! - [`profiler`] holds the records of the calls and the returns of a run.

pub mod code;
pub mod device;
pub mod file;
pub mod native;
pub mod primitive;
pub mod process_context;
pub mod profiler;
pub mod text;
pub mod time;
pub mod vm;
