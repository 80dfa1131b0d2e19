//! Sets of primitives.

pub mod composite;
pub mod laws;
pub mod r7rs;
pub mod small;

pub use composite::CompositePrimitiveSet;
pub use r7rs::R7rsPrimitiveSet;
pub use small::SmallPrimitiveSet;
