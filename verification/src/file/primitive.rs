//! The primitives of files.
//!
//! A path is a string in the memory, and a file is the number that the file
//! system gave it.  A primitive finds its arguments on the stack, the one
//! pushed last on top, and leaves its result in their place: the number of
//! the file that was opened, the byte that was read, whether a file exists,
//! and else the sentinel for falsity.

use super::system::{FileDescriptor, FileError, FileSystem};
use crate::vm::engine::PrimitiveSet;
use crate::vm::error::Error;
use crate::vm::memory::Memory;
use crate::vm::model::MemoryView;
use crate::vm::number::Number;
use crate::vm::value::Value;
use vstd::prelude::*;

verus! {

/// Opens a file: under the path, whether the file is to be written.
pub const OPEN_FILE: u64 = 0;

/// Closes a file.
pub const CLOSE_FILE: u64 = 1;

/// Reads a byte from a file.
pub const READ_FILE: u64 = 2;

/// Writes a byte to a file: under the file, the byte.
pub const WRITE_FILE: u64 = 3;

/// Deletes a file.
pub const DELETE_FILE: u64 = 4;

/// Tells whether a file exists.
pub const EXISTS_FILE: u64 = 5;

/// The set of the primitives of files, on a file system.
pub struct FilePrimitiveSet<T: FileSystem> {
    pub file_system: T,
}

/// What a primitive hands to the file system: the path or the file under
/// the top of the stack or on it, and the value above it, if it takes one.
pub enum Request {
    Open(Seq<u8>, bool),
    Close(FileDescriptor),
    Read(FileDescriptor),
    Write(FileDescriptor, u8),
    Delete(Seq<u8>),
    Find(Seq<u8>),
}

impl MemoryView {
    /// The file that the value on top of the stack stands for.
    pub open spec fn descriptor(self) -> Result<FileDescriptor, Error> {
        match self.top_value() {
            Err(error) => Err(error),
            Ok(Value::Cons(_)) => Err(Error::NumberExpected),
            Ok(Value::Number(number)) => if number.0 > usize::MAX {
                Err(Error::File)
            } else {
                Ok(number.0 as usize)
            },
        }
    }

    /// The path that the value on top of the stack stands for.
    pub open spec fn path(self) -> Result<Seq<u8>, Error> {
        match self.top_value() {
            Err(error) => Err(error),
            Ok(value) => self.string(value, (self.used / 2) as nat),
        }
    }

    /// The memory after the argument on top was popped, where the primitive
    /// takes two.
    pub open spec fn requesting(self, primitive: u64) -> MemoryView {
        if primitive == OPEN_FILE || primitive == WRITE_FILE {
            self.popped()
        } else {
            self
        }
    }

    /// What a primitive asks of the file system, or the failure before it
    /// asks.
    pub open spec fn request(self, primitive: u64) -> Result<Request, Error> {
        let memory = self.requesting(primitive);
        if primitive == OPEN_FILE {
            match (self.top_result(), memory.path()) {
                (Err(error), _) => Err(error),
                (_, Err(error)) => Err(error),
                (Ok(output), Ok(path)) => Ok(Request::Open(path, output != Value::Cons(self.no))),
            }
        } else if primitive == WRITE_FILE {
            match (self.top_result(), memory.descriptor()) {
                (Err(error), _) => Err(error),
                (Ok(Value::Cons(_)), _) => Err(Error::NumberExpected),
                (_, Err(error)) => Err(error),
                (Ok(Value::Number(byte)), Ok(descriptor)) => Ok(
                    Request::Write(descriptor, (byte.0 % 256) as u8),
                ),
            }
        } else if primitive == CLOSE_FILE || primitive == READ_FILE {
            match memory.descriptor() {
                Err(error) => Err(error),
                Ok(descriptor) => Ok(
                    if primitive == CLOSE_FILE {
                        Request::Close(descriptor)
                    } else {
                        Request::Read(descriptor)
                    },
                ),
            }
        } else if primitive == DELETE_FILE || primitive == EXISTS_FILE {
            match memory.path() {
                Err(error) => Err(error),
                Ok(path) => Ok(
                    if primitive == DELETE_FILE {
                        Request::Delete(path)
                    } else {
                        Request::Find(path)
                    },
                ),
            }
        } else {
            Err(Error::IllegalPrimitive)
        }
    }
}

/// The file system opened a file or failed to.
pub open spec fn opened<T: FileSystem>(
    file_system: T,
    path: Seq<u8>,
    output: bool,
    after: T,
    answer: Option<Value>,
) -> bool {
    exists|done: Result<FileDescriptor, FileError>|
        {
            &&& #[trigger] file_system.opening(path, output, after, done)
            &&& answer == match done {
                Ok(descriptor) => Some(Value::Number(Number(descriptor as u64))),
                Err(_) => None,
            }
        }
}

/// The file system closed a file or failed to.
pub open spec fn closed<T: FileSystem>(
    file_system: T,
    memory: MemoryView,
    descriptor: FileDescriptor,
    after: T,
    answer: Option<Value>,
) -> bool {
    exists|done: Result<(), FileError>|
        {
            &&& #[trigger] file_system.closing(descriptor, after, done)
            &&& answer == match done {
                Ok(_) => Some(Value::Cons(memory.no)),
                Err(_) => None,
            }
        }
}

/// The file system read a byte or failed to.
pub open spec fn read<T: FileSystem>(
    file_system: T,
    descriptor: FileDescriptor,
    after: T,
    answer: Option<Value>,
) -> bool {
    exists|done: Result<u8, FileError>|
        {
            &&& #[trigger] file_system.reading(descriptor, after, done)
            &&& answer == match done {
                Ok(byte) => Some(Value::Number(Number(byte as u64))),
                Err(_) => None,
            }
        }
}

/// The file system wrote a byte or failed to.
pub open spec fn written<T: FileSystem>(
    file_system: T,
    memory: MemoryView,
    descriptor: FileDescriptor,
    byte: u8,
    after: T,
    answer: Option<Value>,
) -> bool {
    exists|done: Result<(), FileError>|
        {
            &&& #[trigger] file_system.writing(descriptor, byte, after, done)
            &&& answer == match done {
                Ok(_) => Some(Value::Cons(memory.no)),
                Err(_) => None,
            }
        }
}

/// The file system deleted a file or failed to.
pub open spec fn deleted<T: FileSystem>(
    file_system: T,
    memory: MemoryView,
    path: Seq<u8>,
    after: T,
    answer: Option<Value>,
) -> bool {
    exists|done: Result<(), FileError>|
        {
            &&& #[trigger] file_system.deleting(path, after, done)
            &&& answer == match done {
                Ok(_) => Some(Value::Cons(memory.no)),
                Err(_) => None,
            }
        }
}

/// The file system told whether a file exists or failed to.
pub open spec fn found<T: FileSystem>(
    file_system: T,
    memory: MemoryView,
    path: Seq<u8>,
    answer: Option<Value>,
) -> bool {
    exists|done: Result<bool, FileError>|
        {
            &&& #[trigger] file_system.finding(path, done)
            &&& answer == match done {
                Ok(present) => Some(Value::Cons(memory.boolean(present))),
                Err(_) => None,
            }
        }
}

/// The file system answered a request: what it became, and the value that
/// the primitive leaves, or nothing where the file system failed.
pub open spec fn answered<T: FileSystem>(
    file_system: T,
    memory: MemoryView,
    request: Request,
    after: T,
    answer: Option<Value>,
) -> bool {
    match request {
        Request::Open(path, output) => opened(file_system, path, output, after, answer),
        Request::Close(descriptor) => closed(file_system, memory, descriptor, after, answer),
        Request::Read(descriptor) => read(file_system, descriptor, after, answer),
        Request::Write(descriptor, byte) => written(
            file_system,
            memory,
            descriptor,
            byte,
            after,
            answer,
        ),
        Request::Delete(path) => deleted(file_system, memory, path, after, answer),
        Request::Find(path) => after == file_system && found(file_system, memory, path, answer),
    }
}

impl<T: FileSystem> FilePrimitiveSet<T> {
    /// Creates a set of primitives on a file system.
    pub fn new(file_system: T) -> (result: Self)
        ensures
            result.file_system == file_system,
    {
        FilePrimitiveSet { file_system }
    }

    /// Returns the file that the value on top of the stack stands for.
    fn descriptor(memory: &Memory) -> (result: Result<FileDescriptor, Error>)
        requires
            memory@.wf(),
        ensures
            result == memory@.descriptor(),
    {
        match memory.top() {
            Err(error) => Err(error),
            Ok(Value::Cons(_)) => Err(Error::NumberExpected),
            Ok(Value::Number(number)) => if number.to_u64() > usize::MAX as u64 {
                Err(Error::File)
            } else {
                Ok(number.to_u64() as usize)
            },
        }
    }

    /// Returns the path that the value on top of the stack stands for.
    fn path(memory: &Memory) -> (result: Result<Vec<u8>, Error>)
        requires
            memory@.wf(),
        ensures
            match memory@.path() {
                Ok(path) => result is Ok && result->Ok_0@ == path,
                Err(error) => result is Err && result->Err_0 == error,
            },
    {
        match memory.top() {
            Err(error) => Err(error),
            Ok(value) => memory.bytes(value),
        }
    }

    /// Asks the file system what a primitive asks of it and returns the
    /// value that the primitive leaves.
    fn ask(&mut self, memory: &mut Memory, primitive: u64) -> (result: Result<Option<Value>, Error>)
        requires
            old(memory)@.wf(),
        ensures
            final(memory)@.wf(),
            final(memory)@ == old(memory)@.requesting(primitive),
            match old(memory)@.request(primitive) {
                Err(error) => result == Err::<Option<Value>, Error>(error) && *final(self) == *old(
                    self,
                ),
                Ok(request) => result is Ok && answered(
                    old(self).file_system,
                    final(memory)@,
                    request,
                    final(self).file_system,
                    result->Ok_0,
                ) && (result->Ok_0 matches Some(value) ==> final(memory)@.valid(value)),
            },
    {
        if primitive == OPEN_FILE {
            let output = match memory.pop() {
                Ok(flag) => flag != Value::Cons(memory.boolean(false)),
                Err(error) => {
                    return Err(error);
                },
            };
            let path = match Self::path(memory) {
                Ok(path) => path,
                Err(error) => {
                    return Err(error);
                },
            };
            let done = self.file_system.open(path.as_slice(), output);

            assert(old(self).file_system.opening(path@, output, self.file_system, done));
            let answer = match done {
                Ok(descriptor) => Some(Value::Number(Number::new(descriptor as u64))),
                Err(_) => None,
            };

            assert(opened(old(self).file_system, path@, output, self.file_system, answer));
            Ok(answer)
        } else if primitive == WRITE_FILE {
            let byte = match memory.pop() {
                Ok(Value::Number(byte)) => (byte.to_u64() % 256) as u8,
                Ok(Value::Cons(_)) => {
                    return Err(Error::NumberExpected);
                },
                Err(error) => {
                    return Err(error);
                },
            };
            let descriptor = match Self::descriptor(memory) {
                Ok(descriptor) => descriptor,
                Err(error) => {
                    return Err(error);
                },
            };
            let done = self.file_system.write(descriptor, byte);

            assert(old(self).file_system.writing(descriptor, byte, self.file_system, done));
            let answer = match done {
                Ok(_) => Some(Value::Cons(memory.boolean(false))),
                Err(_) => None,
            };

            assert(written(
                old(self).file_system,
                memory@,
                descriptor,
                byte,
                self.file_system,
                answer,
            ));
            Ok(answer)
        } else if primitive == CLOSE_FILE || primitive == READ_FILE {
            let descriptor = match Self::descriptor(memory) {
                Ok(descriptor) => descriptor,
                Err(error) => {
                    return Err(error);
                },
            };
            if primitive == CLOSE_FILE {
                let done = self.file_system.close(descriptor);

                assert(old(self).file_system.closing(descriptor, self.file_system, done));
                let answer = match done {
                    Ok(_) => Some(Value::Cons(memory.boolean(false))),
                    Err(_) => None,
                };

                assert(closed(
                    old(self).file_system,
                    memory@,
                    descriptor,
                    self.file_system,
                    answer,
                ));
                Ok(answer)
            } else {
                let done = self.file_system.read(descriptor);

                assert(old(self).file_system.reading(descriptor, self.file_system, done));
                let answer = match done {
                    Ok(byte) => Some(Value::Number(Number::new(byte as u64))),
                    Err(_) => None,
                };

                assert(read(old(self).file_system, descriptor, self.file_system, answer));
                Ok(answer)
            }
        } else if primitive == DELETE_FILE || primitive == EXISTS_FILE {
            let path = match Self::path(memory) {
                Ok(path) => path,
                Err(error) => {
                    return Err(error);
                },
            };
            if primitive == DELETE_FILE {
                let done = self.file_system.delete(path.as_slice());

                assert(old(self).file_system.deleting(path@, self.file_system, done));
                let answer = match done {
                    Ok(_) => Some(Value::Cons(memory.boolean(false))),
                    Err(_) => None,
                };

                assert(deleted(old(self).file_system, memory@, path@, self.file_system, answer));
                Ok(answer)
            } else {
                let done = self.file_system.is_present(path.as_slice());

                assert(old(self).file_system.finding(path@, done));
                let answer = match done {
                    Ok(found) => Some(Value::Cons(memory.boolean(found))),
                    Err(_) => None,
                };

                assert(found(old(self).file_system, memory@, path@, answer));
                Ok(answer)
            }
        } else {
            Err(Error::IllegalPrimitive)
        }
    }
}

impl<T: FileSystem> PrimitiveSet for FilePrimitiveSet<T> {
    /// A primitive pops the argument on top where it takes two, reads its
    /// path or its file from the stack and asks the file system.  Where that
    /// fails before the file system is asked, the file system stays as it is.
    /// Where the file system fails, the primitive fails; else the answer takes
    /// the place of the value on top of the stack.
    open spec fn operation(
        self,
        memory: MemoryView,
        primitive: u64,
        after: Self,
        new: MemoryView,
        result: Result<(), Error>,
    ) -> bool {
        let asked = memory.requesting(primitive);
        match memory.request(primitive) {
            Err(error) => after == self && new == asked && result == Err::<(), Error>(error),
            Ok(request) => exists|answer: Option<Value>|
                {
                    &&& #[trigger] answered(
                        self.file_system,
                        asked,
                        request,
                        after.file_system,
                        answer,
                    )
                    &&& match answer {
                        Some(value) => new == asked.with_car(asked.stack, value) && result == Ok::<
                            (),
                            Error,
                        >(()),
                        None => new == asked && result == Err::<(), Error>(Error::File),
                    }
                },
        }
    }

    fn operate(&mut self, memory: &mut Memory, primitive: u64) -> (result: Result<(), Error>) {
        let answer = match self.ask(memory, primitive) {
            Ok(answer) => answer,
            Err(error) => {
                return Err(error);
            },
        };
        let ghost asked = memory@;

        assert(asked.stack != asked.null) by {
            if asked.stack == asked.null {
                assert(asked.top_value() is Err);
            }
        }
        match answer {
            Some(value) => memory.set_top(value),
            None => Err(Error::File),
        }
    }
}

} // verus!
