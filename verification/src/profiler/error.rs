use vstd::prelude::*;

verus! {

/// An error in the text of a record.
#[derive(Clone, Copy, Debug, PartialEq, Eq, Structural)]
pub enum Error {
    /// The record has no type.  A line of text always has a first field, so
    /// that reading a line never gives this.
    MissingRecordType,
    /// The record has no stack.
    MissingStack,
    /// The record has no time.
    MissingTime,
    /// The time of the record is no number of sixty-four bits.
    ParseTime,
    /// The type of the record is none of those known.
    UnknownRecordType,
}

} // verus!
