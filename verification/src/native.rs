//! Objects and functions of the host.

pub mod arguments;
pub mod foreign;

pub use arguments::{pop_arguments, Arguments};
pub use foreign::ForeignTable;
