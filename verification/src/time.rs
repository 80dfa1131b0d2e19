//! Clocks and the primitive that reads them.

pub mod clock;
pub mod libc;
pub mod primitive;
pub mod void;

pub use clock::Clock;
pub use libc::LibcClock;
pub use primitive::{Primitive, TimePrimitiveSet};
pub use void::VoidTime;
