use super::{Device, DeviceError};
use vstd::prelude::*;

verus! {

/// A device whose input is a buffer of bytes and whose outputs are buffers
/// of a fixed capacity.
pub struct FixedBufferDevice {
    input: Vec<u8>,
    input_index: usize,
    output: Vec<u8>,
    error: Vec<u8>,
    capacity: usize,
}

/// The model of a device of buffers.
pub struct FixedBufferView {
    /// The input that is left to read.
    pub input: Seq<u8>,
    /// The bytes written to the output.
    pub output: Seq<u8>,
    /// The bytes written to the output for errors.
    pub error: Seq<u8>,
    /// The number of bytes that each output takes.
    pub capacity: nat,
}

impl View for FixedBufferDevice {
    type V = FixedBufferView;

    closed spec fn view(&self) -> FixedBufferView {
        FixedBufferView {
            input: if self.input_index <= self.input.len() {
                self.input@.subrange(self.input_index as int, self.input.len() as int)
            } else {
                Seq::empty()
            },
            output: self.output@,
            error: self.error@,
            capacity: self.capacity as nat,
        }
    }
}

impl FixedBufferDevice {
    /// Creates a device with no input.
    pub fn new(capacity: usize) -> (result: Self)
        ensures
            result@ == (FixedBufferView {
                input: Seq::empty(),
                output: Seq::empty(),
                error: Seq::empty(),
                capacity: capacity as nat,
            }),
    {
        let device = FixedBufferDevice {
            input: Vec::new(),
            input_index: 0,
            output: Vec::new(),
            error: Vec::new(),
            capacity,
        };
        assert(device@.input =~= Seq::<u8>::empty());
        device
    }

    /// Creates a device with an input.
    pub fn with_input(input: Vec<u8>, capacity: usize) -> (result: Self)
        ensures
            result@ == (FixedBufferView {
                input: input@,
                output: Seq::empty(),
                error: Seq::empty(),
                capacity: capacity as nat,
            }),
    {
        let device = FixedBufferDevice {
            input,
            input_index: 0,
            output: Vec::new(),
            error: Vec::new(),
            capacity,
        };
        assert(device@.input =~= input@);
        device
    }

    /// Returns the bytes written to the output.
    pub fn output(&self) -> (result: &Vec<u8>)
        ensures
            result@ == self@.output,
    {
        &self.output
    }

    /// Returns the bytes written to the output for errors.
    pub fn error(&self) -> (result: &Vec<u8>)
        ensures
            result@ == self@.error,
    {
        &self.error
    }
}

impl Device for FixedBufferDevice {
    /// Reading takes the first byte off the input, and never fails.
    open spec fn reading(self, after: Self, result: Result<Option<u8>, DeviceError>) -> bool {
        if self@.input.len() == 0 {
            after@ == self@ && result == Ok::<Option<u8>, DeviceError>(None)
        } else {
            &&& after@ == (FixedBufferView { input: self@.input.drop_first(), ..self@ })
            &&& result == Ok::<Option<u8>, DeviceError>(Some(self@.input[0]))
        }
    }

    /// Writing puts the byte at the end of the output, and fails when the
    /// output is full.
    open spec fn writing(self, byte: u8, after: Self, result: Result<(), DeviceError>) -> bool {
        if self@.output.len() < self@.capacity {
            &&& after@ == (FixedBufferView { output: self@.output.push(byte), ..self@ })
            &&& result == Ok::<(), DeviceError>(())
        } else {
            after@ == self@ && result == Err::<(), DeviceError>(DeviceError)
        }
    }

    /// Writing puts the byte at the end of the output for errors, and fails
    /// when that is full.
    open spec fn writing_error(self, byte: u8, after: Self, result: Result<(), DeviceError>) -> bool {
        if self@.error.len() < self@.capacity {
            &&& after@ == (FixedBufferView { error: self@.error.push(byte), ..self@ })
            &&& result == Ok::<(), DeviceError>(())
        } else {
            after@ == self@ && result == Err::<(), DeviceError>(DeviceError)
        }
    }

    fn read(&mut self) -> (result: Result<Option<u8>, DeviceError>) {
        if self.input_index < self.input.len() {
            let byte = self.input[self.input_index];

            self.input_index = self.input_index + 1;
            assert(self@.input =~= old(self)@.input.drop_first());
            Ok(Some(byte))
        } else {
            assert(old(self)@.input.len() == 0);
            Ok(None)
        }
    }

    fn write(&mut self, byte: u8) -> (result: Result<(), DeviceError>) {
        if self.output.len() < self.capacity {
            self.output.push(byte);
            Ok(())
        } else {
            Err(DeviceError)
        }
    }

    fn write_error(&mut self, byte: u8) -> (result: Result<(), DeviceError>) {
        if self.error.len() < self.capacity {
            self.error.push(byte);
            Ok(())
        } else {
            Err(DeviceError)
        }
    }
}

} // verus!
