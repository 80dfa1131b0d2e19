//! Devices: where the bytes that a program reads come from and where the
//! bytes that it writes go.

pub mod fixed_buffer;

pub use fixed_buffer::FixedBufferDevice;

use vstd::prelude::*;

verus! {

/// The failure of a device.
#[derive(Clone, Copy, Debug, PartialEq, Eq, Structural)]
pub struct DeviceError;

/// A device of one input and two outputs, one of them for errors.
pub trait Device: Sized {
    /// What reading a byte may make of the device and return: a byte, or
    /// nothing at the end of the input.  Of a device that does not say,
    /// anything.
    open spec fn reading(self, after: Self, result: Result<Option<u8>, DeviceError>) -> bool {
        true
    }

    /// What writing a byte to the output may make of the device and return.
    /// Of a device that does not say, anything.
    open spec fn writing(self, byte: u8, after: Self, result: Result<(), DeviceError>) -> bool {
        true
    }

    /// What writing a byte to the output for errors may make of the device
    /// and return.  Of a device that does not say, anything.
    open spec fn writing_error(
        self,
        byte: u8,
        after: Self,
        result: Result<(), DeviceError>,
    ) -> bool {
        true
    }

    /// Reads a byte from the input.
    fn read(&mut self) -> (result: Result<Option<u8>, DeviceError>)
        ensures
            (*old(self)).reading(*final(self), result),
    ;

    /// Writes a byte to the output.
    fn write(&mut self, byte: u8) -> (result: Result<(), DeviceError>)
        ensures
            (*old(self)).writing(byte, *final(self), result),
    ;

    /// Writes a byte to the output for errors.
    fn write_error(&mut self, byte: u8) -> (result: Result<(), DeviceError>)
        ensures
            (*old(self)).writing_error(byte, *final(self), result),
    ;
}

} // verus!
