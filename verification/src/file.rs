//! Files of the host and the primitives that use them.

pub mod primitive;
pub mod system;

pub use primitive::FilePrimitiveSet;
pub use system::{FileDescriptor, FileError, FileSystem};
