use super::record_type::RecordType;
use vstd::prelude::*;

verus! {

/// A record of a profile: what happened, the names of the procedures on the
/// stack, the one called last first, and the time.
#[derive(Debug, PartialEq, Eq)]
pub struct Record {
    record_type: RecordType,
    stack: Vec<String>,
    time: u64,
}

/// The model of a record.
pub struct RecordView {
    pub record_type: RecordType,
    pub stack: Seq<Seq<char>>,
    pub time: u64,
}

/// The names as sequences of characters.
pub open spec fn names(stack: Seq<String>) -> Seq<Seq<char>> {
    Seq::new(stack.len(), |i: int| stack[i]@)
}

impl View for Record {
    type V = RecordView;

    closed spec fn view(&self) -> RecordView {
        RecordView { record_type: self.record_type, stack: names(self.stack@), time: self.time }
    }
}

impl Record {
    /// Creates a record.
    pub fn new(record_type: RecordType, stack: Vec<String>, time: u64) -> (result: Self)
        ensures
            result@ == (RecordView { record_type, stack: names(stack@), time }),
    {
        Record { record_type, stack, time }
    }

    /// Returns the type.
    pub fn record_type(&self) -> (result: RecordType)
        ensures
            result == self@.record_type,
    {
        self.record_type
    }

    /// Returns the names of the procedures on the stack.
    pub fn stack(&self) -> (result: &Vec<String>)
        ensures
            names(result@) == self@.stack,
    {
        &self.stack
    }

    /// Returns the time.
    pub fn time(&self) -> (result: u64)
        ensures
            result == self@.time,
    {
        self.time
    }
}

/// A record of a procedure: what happened, the procedures on the stack, the
/// outermost first and each with its name if it has one, and the time.
#[derive(Debug, PartialEq, Eq)]
pub struct ProcedureRecord {
    operation: RecordType,
    stack: Vec<Option<String>>,
    time: u64,
}

/// The model of a record of a procedure.
pub struct ProcedureRecordView {
    pub operation: RecordType,
    pub stack: Seq<Option<Seq<char>>>,
    pub time: u64,
}

/// The frames as models.
pub open spec fn frames(stack: Seq<Option<String>>) -> Seq<Option<Seq<char>>> {
    Seq::new(
        stack.len(),
        |i: int|
            match stack[i] {
                Some(name) => Some(name@),
                None => None,
            },
    )
}

impl View for ProcedureRecord {
    type V = ProcedureRecordView;

    closed spec fn view(&self) -> ProcedureRecordView {
        ProcedureRecordView {
            operation: self.operation,
            stack: frames(self.stack@),
            time: self.time,
        }
    }
}

impl ProcedureRecord {
    /// Creates a record.
    pub fn new(operation: RecordType, stack: Vec<Option<String>>, time: u64) -> (result: Self)
        ensures
            result@ == (ProcedureRecordView { operation, stack: frames(stack@), time }),
    {
        ProcedureRecord { operation, stack, time }
    }

    /// Returns what happened.
    pub fn operation(&self) -> (result: RecordType)
        ensures
            result == self@.operation,
    {
        self.operation
    }

    /// Returns the procedures on the stack.
    pub fn stack(&self) -> (result: &Vec<Option<String>>)
        ensures
            frames(result@) == self@.stack,
    {
        &self.stack
    }

    /// Returns the time.
    pub fn time(&self) -> (result: u64)
        ensures
            result == self@.time,
    {
        self.time
    }
}

} // verus!
