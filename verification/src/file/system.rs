use vstd::prelude::*;

verus! {

/// The number that an open file goes by.
pub type FileDescriptor = usize;

/// The failure of a file system.
#[derive(Clone, Copy, Debug, PartialEq, Eq, Structural)]
pub struct FileError;

/// A file system.  What its operations do is the business of the host; a
/// file system may say what they do, and one that does not say may do
/// anything.
pub trait FileSystem: Sized {
    /// What opening a file may make of the file system and return.
    open spec fn opening(
        self,
        path: Seq<u8>,
        output: bool,
        after: Self,
        result: Result<FileDescriptor, FileError>,
    ) -> bool {
        true
    }

    /// What closing a file may make of the file system and return.
    open spec fn closing(
        self,
        descriptor: FileDescriptor,
        after: Self,
        result: Result<(), FileError>,
    ) -> bool {
        true
    }

    /// What reading a byte may make of the file system and return.
    open spec fn reading(
        self,
        descriptor: FileDescriptor,
        after: Self,
        result: Result<u8, FileError>,
    ) -> bool {
        true
    }

    /// What writing a byte may make of the file system and return.
    open spec fn writing(
        self,
        descriptor: FileDescriptor,
        byte: u8,
        after: Self,
        result: Result<(), FileError>,
    ) -> bool {
        true
    }

    /// What deleting a file may make of the file system and return.
    open spec fn deleting(self, path: Seq<u8>, after: Self, result: Result<(), FileError>) -> bool {
        true
    }

    /// What asking for a file may return.
    open spec fn finding(self, path: Seq<u8>, result: Result<bool, FileError>) -> bool {
        true
    }

    /// Opens a file, for writing or for reading.
    fn open(&mut self, path: &[u8], output: bool) -> (result: Result<FileDescriptor, FileError>)
        ensures
            (*old(self)).opening(path@, output, *final(self), result),
    ;

    /// Closes a file.
    fn close(&mut self, descriptor: FileDescriptor) -> (result: Result<(), FileError>)
        ensures
            (*old(self)).closing(descriptor, *final(self), result),
    ;

    /// Reads a byte from a file.
    fn read(&mut self, descriptor: FileDescriptor) -> (result: Result<u8, FileError>)
        ensures
            (*old(self)).reading(descriptor, *final(self), result),
    ;

    /// Writes a byte to a file.
    fn write(&mut self, descriptor: FileDescriptor, byte: u8) -> (result: Result<(), FileError>)
        ensures
            (*old(self)).writing(descriptor, byte, *final(self), result),
    ;

    /// Deletes a file.
    fn delete(&mut self, path: &[u8]) -> (result: Result<(), FileError>)
        ensures
            (*old(self)).deleting(path@, *final(self), result),
    ;

    /// Tells whether a file exists.
    fn is_present(&self, path: &[u8]) -> (result: Result<bool, FileError>)
        ensures
            self.finding(path@, result),
    ;
}

} // verus!
