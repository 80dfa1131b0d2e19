use super::error::Error;
use vstd::prelude::*;
use vstd::string::StringSliceAdditionalSpecFns;

verus! {

/// The type of a record.
#[derive(Clone, Copy, Debug, PartialEq, Eq, Structural)]
pub enum RecordType {
    /// A call.
    Call,
    /// A return.
    Return,
    /// A tail call.
    ReturnCall,
}

/// The bytes of the word `call`.
pub open spec fn call_name() -> Seq<u8> {
    seq![99u8, 97u8, 108u8, 108u8]
}

/// The bytes of the word `return`.
pub open spec fn return_name() -> Seq<u8> {
    seq![114u8, 101u8, 116u8, 117u8, 114u8, 110u8]
}

/// The bytes of the word `return_call`.
pub open spec fn return_call_name() -> Seq<u8> {
    return_name() + seq![95u8] + call_name()
}

/// The type that a name stands for.
pub open spec fn named(name: Seq<u8>) -> Option<RecordType> {
    if name == call_name() {
        Some(RecordType::Call)
    } else if name == return_name() {
        Some(RecordType::Return)
    } else if name == return_call_name() {
        Some(RecordType::ReturnCall)
    } else {
        None
    }
}

impl RecordType {
    /// The name of the type in bytes.
    pub open spec fn name(self) -> Seq<u8> {
        match self {
            RecordType::Call => call_name(),
            RecordType::Return => return_name(),
            RecordType::ReturnCall => return_call_name(),
        }
    }

    /// Returns the name of the type.
    pub fn to_string(&self) -> (result: String)
        ensures
            result@ == match self {
                RecordType::Call => "call"@,
                RecordType::Return => "return"@,
                RecordType::ReturnCall => "return_call"@,
            },
    {
        match self {
            RecordType::Call => "call".to_string(),
            RecordType::Return => "return".to_string(),
            RecordType::ReturnCall => "return_call".to_string(),
        }
    }

    /// Writes the name of the type behind the bytes written so far.
    pub fn write(&self, buffer: &mut Vec<u8>)
        ensures
            final(buffer)@ == old(buffer)@ + self.name(),
    {
        match self {
            RecordType::Call => {
                write_call(buffer);
            },
            RecordType::Return => {
                write_return(buffer);
            },
            RecordType::ReturnCall => {
                write_return(buffer);
                buffer.push(95);
                write_call(buffer);
                assert(buffer@ =~= old(buffer)@ + return_call_name());
            },
        }
    }

    /// Reads the type from its name.
    pub fn parse(name: &[u8]) -> (result: Result<RecordType, Error>)
        ensures
            result == match named(name@) {
                Some(record_type) => Ok::<RecordType, Error>(record_type),
                None => Err(Error::UnknownRecordType),
            },
    {
        let length = name.len();

        proof {
            assert(call_name().len() == 4);
            assert(return_name().len() == 6);
            assert(return_call_name().len() == 11);
            assert(return_call_name().subrange(0, 6) =~= return_name());
            assert(return_call_name().subrange(7, 11) =~= call_name());
            assert(return_call_name()[6] == 95);
            if length == 4 {
                assert(name@.subrange(0, 4) =~= name@);
            }
            if length == 6 {
                assert(name@.subrange(0, 6) =~= name@);
            }
        }
        if length == 4 && is_call(name, 0) {
            Ok(RecordType::Call)
        } else if length == 6 && is_return(name) {
            Ok(RecordType::Return)
        } else if length == 11 && is_return(name) && name[6] == 95 && is_call(name, 7) {
            assert(name@ =~= return_call_name()) by {
                assert(name@ =~= name@.subrange(0, 6) + seq![name@[6]] + name@.subrange(7, 11));
            }
            Ok(RecordType::ReturnCall)
        } else {
            Err(Error::UnknownRecordType)
        }
    }
}

/// Tells whether the four bytes from an index on are the word `call`.
fn is_call(name: &[u8], start: usize) -> (result: bool)
    requires
        start + 4 <= name.len(),
    ensures
        result == (name@.subrange(start as int, start + 4) == call_name()),
{
    let result = name[start] == 99 && name[start + 1] == 97 && name[start + 2] == 108 && name[start
        + 3] == 108;
    proof {
        let part = name@.subrange(start as int, start + 4);
        if result {
            assert(part =~= call_name());
        } else if part == call_name() {
            assert(part[0] == 99 && part[1] == 97 && part[2] == 108 && part[3] == 108);
        }
    }
    result
}

/// Tells whether the first six bytes are the word `return`.
fn is_return(name: &[u8]) -> (result: bool)
    requires
        6 <= name.len(),
    ensures
        result == (name@.subrange(0, 6) == return_name()),
{
    let result = name[0] == 114 && name[1] == 101 && name[2] == 116 && name[3] == 117 && name[4]
        == 114 && name[5] == 110;
    proof {
        let part = name@.subrange(0, 6);
        if result {
            assert(part =~= return_name());
        } else if part == return_name() {
            assert(part[0] == 114 && part[1] == 101 && part[2] == 116 && part[3] == 117
                && part[4] == 114 && part[5] == 110);
        }
    }
    result
}

/// Writes the word `call`.
fn write_call(buffer: &mut Vec<u8>)
    ensures
        final(buffer)@ == old(buffer)@ + call_name(),
{
    buffer.push(99);
    buffer.push(97);
    buffer.push(108);
    buffer.push(108);
    assert(buffer@ =~= old(buffer)@ + call_name());
}

/// Writes the word `return`.
fn write_return(buffer: &mut Vec<u8>)
    ensures
        final(buffer)@ == old(buffer)@ + return_name(),
{
    buffer.push(114);
    buffer.push(101);
    buffer.push(116);
    buffer.push(117);
    buffer.push(114);
    buffer.push(110);
    assert(buffer@ =~= old(buffer)@ + return_name());
}

impl std::str::FromStr for RecordType {
    type Err = Error;

    fn from_str(string: &str) -> (result: Result<Self, Error>)
        ensures
            result == match named(string.spec_bytes()) {
                Some(record_type) => Ok::<RecordType, Error>(record_type),
                None => Err(Error::UnknownRecordType),
            },
    {
        RecordType::parse(string.as_bytes())
    }
}

/// Reading the name of a type gives the type.
pub proof fn lemma_name_round_trip(record_type: RecordType)
    ensures
        named(record_type.name()) == Some(record_type),
{
    assert(call_name().len() == 4);
    assert(return_name().len() == 6);
    assert(return_call_name().len() == 11);
}

} // verus!
