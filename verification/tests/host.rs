use stak::file::primitive::{
    CLOSE_FILE, DELETE_FILE, EXISTS_FILE, OPEN_FILE, READ_FILE, WRITE_FILE,
};
use stak::file::{FileDescriptor, FileError, FilePrimitiveSet, FileSystem};
use stak::process_context::primitive::{COMMAND_LINE, ENVIRONMENT_VARIABLES};
use stak::process_context::{
    Primitive, ProcessContext, ProcessContextPrimitiveSet, VoidProcessContext,
};
use stak::vm::{Error, Memory, Number, PrimitiveSet, Value};

fn number(number: u64) -> Value {
    Number::new(number).into()
}

fn create(size: usize) -> Memory {
    Memory::new(vec![Value::default(); size]).unwrap()
}

fn push_string(memory: &mut Memory, text: &str) {
    memory.reserve_cells(text.len() + 1).unwrap();

    let string = memory.build_string(text.as_bytes());

    memory.push(string.into()).unwrap();
}

fn read_string(memory: &Memory, value: Value) -> String {
    String::from_utf8(memory.bytes(value).unwrap()).unwrap()
}

#[derive(Default)]
struct FakeFileSystem {
    files: Vec<(Vec<u8>, Vec<u8>)>,
    open: Vec<Option<(usize, usize, bool)>>,
}

impl FileSystem for FakeFileSystem {
    fn open(&mut self, path: &[u8], output: bool) -> Result<FileDescriptor, FileError> {
        let index = match self.files.iter().position(|(name, _)| name == path) {
            Some(index) => index,
            None if output => {
                self.files.push((path.to_vec(), vec![]));
                self.files.len() - 1
            }
            None => return Err(FileError),
        };

        self.open.push(Some((index, 0, output)));

        Ok(self.open.len() - 1)
    }

    fn close(&mut self, descriptor: FileDescriptor) -> Result<(), FileError> {
        match self.open.get_mut(descriptor) {
            Some(file) if file.is_some() => {
                *file = None;
                Ok(())
            }
            _ => Err(FileError),
        }
    }

    fn read(&mut self, descriptor: FileDescriptor) -> Result<u8, FileError> {
        match self.open.get_mut(descriptor) {
            Some(Some((index, position, false))) => {
                let byte = *self.files[*index].1.get(*position).ok_or(FileError)?;

                *position += 1;
                Ok(byte)
            }
            _ => Err(FileError),
        }
    }

    fn write(&mut self, descriptor: FileDescriptor, byte: u8) -> Result<(), FileError> {
        match self.open.get(descriptor) {
            Some(Some((index, _, true))) => {
                self.files[*index].1.push(byte);
                Ok(())
            }
            _ => Err(FileError),
        }
    }

    fn delete(&mut self, path: &[u8]) -> Result<(), FileError> {
        let index = self
            .files
            .iter()
            .position(|(name, _)| name == path)
            .ok_or(FileError)?;

        self.files[index].0 = vec![];
        Ok(())
    }

    fn is_present(&self, path: &[u8]) -> Result<bool, FileError> {
        Ok(self.files.iter().any(|(name, _)| name == path))
    }
}

#[test]
fn strings_in_memory() {
    let mut memory = create(256);

    push_string(&mut memory, "hello");

    let string = memory.pop().unwrap();

    assert_eq!(memory.bytes(string), Ok(b"hello".to_vec()));
    assert_eq!(memory.bytes(memory.null().into()), Ok(vec![]));
    assert_eq!(memory.bytes(number(1)), Err(Error::ConsExpected));

    let list = memory.allocate(number(256), memory.null().into()).unwrap();

    assert_eq!(memory.bytes(list.into()), Err(Error::NumberExpected));

    let list = memory.allocate(list.into(), memory.null().into()).unwrap();

    assert_eq!(memory.bytes(list.into()), Err(Error::NumberExpected));

    let list = memory.allocate(number(1), number(2)).unwrap();

    assert_eq!(memory.bytes(list.into()), Err(Error::ConsExpected));
    memory.set_cdr(list, list.into());
    assert_eq!(memory.bytes(list.into()), Err(Error::ConsExpected));
}

#[test]
fn reserve_cells() {
    let mut memory = create(32);
    let start = memory.allocation_start();

    assert_eq!(memory.reserve_cells(5), Ok(()));
    assert_eq!(memory.allocation_start(), start);
    memory.allocate(number(0), number(0)).unwrap();
    assert_eq!(memory.reserve_cells(5), Ok(()));
    assert_ne!(memory.allocation_start(), start);
    assert_eq!(memory.allocation_index(), 6);
    assert_eq!(memory.reserve_cells(6), Err(Error::OutOfMemory));
    assert_eq!(memory.reserve_cells(0), Ok(()));
}

#[test]
fn write_and_read_file() {
    let mut memory = create(256);
    let mut primitives = FilePrimitiveSet::new(FakeFileSystem::default());
    let no: Value = memory.boolean(false).into();
    let yes: Value = memory.boolean(true).into();

    push_string(&mut memory, "foo");
    assert_eq!(primitives.operate(&mut memory, EXISTS_FILE), Ok(()));
    assert_eq!(memory.pop(), Ok(no));

    push_string(&mut memory, "foo");
    memory.push(yes).unwrap();
    assert_eq!(primitives.operate(&mut memory, OPEN_FILE), Ok(()));
    assert_eq!(memory.top(), Ok(number(0)));
    memory.push(number(256 + 65)).unwrap();
    assert_eq!(primitives.operate(&mut memory, WRITE_FILE), Ok(()));
    assert_eq!(memory.pop(), Ok(no));

    memory.push(number(0)).unwrap();
    assert_eq!(primitives.operate(&mut memory, CLOSE_FILE), Ok(()));
    assert_eq!(memory.pop(), Ok(no));
    memory.push(number(0)).unwrap();
    assert_eq!(primitives.operate(&mut memory, CLOSE_FILE), Err(Error::File));
    assert_eq!(memory.pop(), Ok(number(0)));

    push_string(&mut memory, "foo");
    assert_eq!(primitives.operate(&mut memory, EXISTS_FILE), Ok(()));
    assert_eq!(memory.pop(), Ok(yes));

    push_string(&mut memory, "foo");
    memory.push(no).unwrap();
    assert_eq!(primitives.operate(&mut memory, OPEN_FILE), Ok(()));
    assert_eq!(memory.top(), Ok(number(1)));
    assert_eq!(primitives.operate(&mut memory, READ_FILE), Ok(()));
    assert_eq!(memory.pop(), Ok(number(65)));
    memory.push(number(1)).unwrap();
    assert_eq!(primitives.operate(&mut memory, READ_FILE), Err(Error::File));
    assert_eq!(memory.pop(), Ok(number(1)));

    push_string(&mut memory, "foo");
    assert_eq!(primitives.operate(&mut memory, DELETE_FILE), Ok(()));
    assert_eq!(memory.pop(), Ok(no));
    push_string(&mut memory, "foo");
    assert_eq!(primitives.operate(&mut memory, DELETE_FILE), Err(Error::File));
    assert_eq!(primitives.file_system.files, vec![(vec![], vec![65])]);
}

#[test]
fn file_primitive_errors() {
    let mut memory = create(256);
    let mut primitives = FilePrimitiveSet::new(FakeFileSystem::default());
    let no: Value = memory.boolean(false).into();

    assert_eq!(
        primitives.operate(&mut memory, 6),
        Err(Error::IllegalPrimitive)
    );
    assert_eq!(
        primitives.operate(&mut memory, OPEN_FILE),
        Err(Error::StackUnderflow)
    );
    assert_eq!(
        primitives.operate(&mut memory, CLOSE_FILE),
        Err(Error::StackUnderflow)
    );
    memory.push(no).unwrap();
    assert_eq!(
        primitives.operate(&mut memory, READ_FILE),
        Err(Error::NumberExpected)
    );
    assert_eq!(
        primitives.operate(&mut memory, OPEN_FILE),
        Err(Error::StackUnderflow)
    );
    memory.push(number(1)).unwrap();
    assert_eq!(
        primitives.operate(&mut memory, EXISTS_FILE),
        Err(Error::ConsExpected)
    );
    memory.push(no).unwrap();
    assert_eq!(
        primitives.operate(&mut memory, WRITE_FILE),
        Err(Error::NumberExpected)
    );
    push_string(&mut memory, "bar");
    memory.push(no).unwrap();
    assert_eq!(primitives.operate(&mut memory, OPEN_FILE), Err(Error::File));
    assert_eq!(read_string(&memory, memory.top().unwrap()), "bar");
}

struct FakeContext {}

impl ProcessContext for FakeContext {
    fn command_line(&self) -> Vec<Vec<u8>> {
        vec![b"run".to_vec(), b"".to_vec(), b"fast".to_vec()]
    }

    fn environment_variables(&self) -> Vec<(Vec<u8>, Vec<u8>)> {
        vec![
            (b"HOME".to_vec(), b"/root".to_vec()),
            (b"EMPTY".to_vec(), b"".to_vec()),
        ]
    }
}

fn list(memory: &Memory, mut value: Value) -> Vec<Value> {
    let mut values = vec![];

    while value != memory.null().into() {
        values.push(memory.car_value(value).unwrap());
        value = memory.cdr_value(value).unwrap();
    }

    values
}

#[test]
fn command_line() {
    let mut memory = create(256);
    let mut primitives = ProcessContextPrimitiveSet::new(FakeContext {});

    assert_eq!(primitives.operate(&mut memory, COMMAND_LINE), Ok(()));

    let arguments = memory.pop().unwrap();

    assert_eq!(
        list(&memory, arguments)
            .into_iter()
            .map(|string| read_string(&memory, string))
            .collect::<Vec<_>>(),
        vec!["run", "", "fast"]
    );
    assert_eq!(memory.pop(), Err(Error::StackUnderflow));
    // The three cells of a memory, seven of bytes, three of the list and one of the stack.
    assert_eq!(memory.allocation_index(), 2 * 14);
}

#[test]
fn environment_variables() {
    let mut memory = create(256);
    let mut primitives = ProcessContextPrimitiveSet::new(FakeContext {});

    assert_eq!(
        primitives.operate(&mut memory, ENVIRONMENT_VARIABLES),
        Ok(())
    );

    let variables = memory.pop().unwrap();

    assert_eq!(
        list(&memory, variables)
            .into_iter()
            .map(|pair| (
                read_string(&memory, memory.car_value(pair).unwrap()),
                read_string(&memory, memory.cdr_value(pair).unwrap())
            ))
            .collect::<Vec<_>>(),
        vec![
            ("HOME".to_string(), "/root".to_string()),
            ("EMPTY".to_string(), "".to_string())
        ]
    );
}

#[test]
fn void_process_context() {
    let mut memory = create(32);
    let mut primitives = ProcessContextPrimitiveSet::new(VoidProcessContext::new());
    let null: Value = memory.null().into();

    assert_eq!(Primitive::from_number(0), Some(Primitive::CommandLine));
    assert_eq!(
        Primitive::from_number(1),
        Some(Primitive::EnvironmentVariables)
    );
    assert_eq!(Primitive::from_number(2), None);
    assert_eq!(primitives.operate(&mut memory, COMMAND_LINE), Ok(()));
    assert_eq!(memory.pop(), Ok(null));
    assert_eq!(
        primitives.operate(&mut memory, ENVIRONMENT_VARIABLES),
        Ok(())
    );
    assert_eq!(memory.pop(), Ok(null));
    assert_eq!(
        primitives.operate(&mut memory, 2),
        Err(Error::IllegalPrimitive)
    );
}

#[test]
fn command_line_without_room() {
    let mut memory = create(32);
    let mut primitives = ProcessContextPrimitiveSet::new(FakeContext {});

    assert_eq!(
        primitives.operate(&mut memory, COMMAND_LINE),
        Err(Error::OutOfMemory)
    );
    assert_eq!(memory.pop(), Err(Error::StackUnderflow));
}
