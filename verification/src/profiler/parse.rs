use super::error::Error;
use super::record::{frames, names, ProcedureRecord, ProcedureRecordView, Record, RecordView};
use super::record_type::{named, RecordType};
use super::text::{
    all_valid, decoded, lemma_lines_valid, lemma_split_valid, lines, number, parse_number, split,
    split_lines, split_text, text_of, texts,
};
use vstd::prelude::*;
use vstd::string::StringSliceAdditionalSpecFns;
use vstd::utf8::{encode_utf8_valid_utf8, valid_utf8};

verus! {

/// The record that a line stands for.  The fields of a line are parted by
/// tabs: the type, the stack and the time.  A line always has a first field,
/// which may be empty and is then no type that is known.  The names on the
/// stack are parted by semicolons.
pub open spec fn record(line: Seq<u8>) -> Result<RecordView, Error> {
    let fields = split(line, 9);
    if named(fields[0]) is None {
        Err(Error::UnknownRecordType)
    } else if fields.len() < 2 {
        Err(Error::MissingStack)
    } else if fields.len() < 3 {
        Err(Error::MissingTime)
    } else {
        match number(fields[2]) {
            None => Err(Error::ParseTime),
            Some(time) => if time > u64::MAX {
                Err(Error::ParseTime)
            } else {
                Ok(
                    RecordView {
                        record_type: named(fields[0])->Some_0,
                        stack: decoded(split(fields[1], 59)),
                        time: time as u64,
                    },
                )
            },
        }
    }
}

/// The record of a procedure that a record stands for: the stack is turned
/// round, and a procedure with an empty name has none.
pub open spec fn procedure_record(record: RecordView) -> ProcedureRecordView {
    ProcedureRecordView {
        operation: record.record_type,
        stack: Seq::new(
            record.stack.len(),
            |i: int|
                {
                    let name = record.stack[record.stack.len() - 1 - i];
                    if name.len() == 0 {
                        None
                    } else {
                        Some(name)
                    }
                },
        ),
        time: record.time,
    }
}

/// A parsed record is the record that its line stands for.
pub open spec fn parsed(result: Result<Record, Error>, line: Seq<u8>) -> bool {
    match record(line) {
        Ok(view) => result is Ok && result->Ok_0@ == view,
        Err(error) => result is Err && result->Err_0 == error,
    }
}

/// A parsed record of a procedure is the one that its line stands for.
pub open spec fn parsed_raw(result: Result<ProcedureRecord, Error>, line: Seq<u8>) -> bool {
    match record(line) {
        Ok(view) => result is Ok && result->Ok_0@ == procedure_record(view),
        Err(error) => result is Err && result->Err_0 == error,
    }
}

/// Makes strings of pieces of text in UTF-8.
fn strings(pieces: &Vec<Vec<u8>>) -> (result: Vec<String>)
    requires
        all_valid(texts(pieces@)),
    ensures
        names(result@) == decoded(texts(pieces@)),
{
    let mut result: Vec<String> = Vec::new();
    let mut index: usize = 0;

    while index < pieces.len()
        invariant
            index <= pieces.len(),
            result.len() == index,
            all_valid(texts(pieces@)),
            forall|i: int| 0 <= i < index ==> (#[trigger] result[i])@ == decoded(texts(pieces@))[i],
        decreases pieces.len() - index,
    {
        assert(texts(pieces@)[index as int] == pieces[index as int]@);
        result.push(text_of(pieces[index].as_slice()));
        index = index + 1;
    }
    assert(names(result@) =~= decoded(texts(pieces@)));
    result
}

/// Parses the record of a line of text in UTF-8.
fn parse_line(line: &[u8]) -> (result: Result<Record, Error>)
    requires
        valid_utf8(line@),
    ensures
        parsed(result, line@),
{
    let fields = split_text(line, 9);

    proof {
        lemma_split_valid(line@, 9);
    }
    assert(texts(fields@)[0] == fields[0]@);
    let record_type = match RecordType::parse(fields[0].as_slice()) {
        Ok(record_type) => record_type,
        Err(error) => {
            return Err(error);
        },
    };
    if fields.len() < 2 {
        return Err(Error::MissingStack);
    }
    assert(texts(fields@)[1] == fields[1]@);
    let pieces = split_text(fields[1].as_slice(), 59);

    proof {
        lemma_split_valid(fields[1]@, 59);
    }
    let stack = strings(&pieces);

    if fields.len() < 3 {
        return Err(Error::MissingTime);
    }
    assert(texts(fields@)[2] == fields[2]@);
    match parse_number(fields[2].as_slice()) {
        Some(time) => Ok(Record::new(record_type, stack, time)),
        None => Err(Error::ParseTime),
    }
}

/// Parses the record of a line.
pub fn parse_record(line: &str) -> (result: Result<Record, Error>)
    ensures
        parsed(result, line.spec_bytes()),
{
    proof {
        encode_utf8_valid_utf8(line@);
    }
    parse_line(line.as_bytes())
}

/// Parses the records of a text, one for each line.
pub fn parse_records(source: &str) -> (records: Vec<Result<Record, Error>>)
    ensures
        records.len() == lines(source.spec_bytes()).len(),
        forall|i: int|
            0 <= i < records.len() ==> parsed(#[trigger] records[i], lines(source.spec_bytes())[i]),
{
    let all = split_lines(source.as_bytes());
    let mut records: Vec<Result<Record, Error>> = Vec::new();
    let mut index: usize = 0;

    proof {
        encode_utf8_valid_utf8(source@);
        lemma_lines_valid(source.spec_bytes());
    }
    while index < all.len()
        invariant
            index <= all.len(),
            records.len() == index,
            texts(all@) == lines(source.spec_bytes()),
            all_valid(lines(source.spec_bytes())),
            forall|i: int|
                0 <= i < index ==> parsed(#[trigger] records[i], lines(source.spec_bytes())[i]),
        decreases all.len() - index,
    {
        assert(texts(all@)[index as int] == all[index as int]@);
        records.push(parse_line(all[index].as_slice()));
        index = index + 1;
    }
    records
}

/// Turns a record into the record of a procedure.
fn to_procedure_record(record: &Record) -> (result: ProcedureRecord)
    ensures
        result@ == procedure_record(record@),
{
    let stack = record.stack();
    let mut frames_reversed: Vec<Option<String>> = Vec::new();
    let mut index = stack.len();

    while index > 0
        invariant
            index <= stack.len(),
            frames_reversed.len() == stack.len() - index,
            forall|i: int|
                0 <= i < frames_reversed.len() ==> #[trigger] frames(frames_reversed@)[i]
                    == procedure_record(record@).stack[i],
            names(stack@) == record@.stack,
        decreases index,
    {
        index = index - 1;
        let name = &stack[index];
        let ghost before = frames_reversed@;

        assert(names(stack@)[index as int] == name@);
        if name.as_str().is_empty() {
            frames_reversed.push(None);
        } else {
            frames_reversed.push(Some(name.clone()));
        }
        proof {
            assert forall|i: int| 0 <= i < frames_reversed.len() implies #[trigger] frames(
                frames_reversed@,
            )[i] == procedure_record(record@).stack[i] by {
                if i < before.len() {
                    assert(frames(before)[i] == procedure_record(record@).stack[i]);
                }
            }
        }
    }
    let result = ProcedureRecord::new(record.record_type(), frames_reversed, record.time());

    proof {
        assert(result@.stack =~= procedure_record(record@).stack);
    }
    result
}

/// Parses the records of procedures of a text, one for each line.
pub fn parse_raw_records(source: &str) -> (records: Vec<Result<ProcedureRecord, Error>>)
    ensures
        records.len() == lines(source.spec_bytes()).len(),
        forall|i: int|
            0 <= i < records.len() ==> parsed_raw(
                #[trigger] records[i],
                lines(source.spec_bytes())[i],
            ),
{
    let all = split_lines(source.as_bytes());
    let mut records: Vec<Result<ProcedureRecord, Error>> = Vec::new();
    let mut index: usize = 0;

    proof {
        encode_utf8_valid_utf8(source@);
        lemma_lines_valid(source.spec_bytes());
    }
    while index < all.len()
        invariant
            index <= all.len(),
            records.len() == index,
            texts(all@) == lines(source.spec_bytes()),
            all_valid(lines(source.spec_bytes())),
            forall|i: int|
                0 <= i < index ==> parsed_raw(
                    #[trigger] records[i],
                    lines(source.spec_bytes())[i],
                ),
        decreases all.len() - index,
    {
        assert(texts(all@)[index as int] == all[index as int]@);
        let record = match parse_line(all[index].as_slice()) {
            Ok(record) => Ok(to_procedure_record(&record)),
            Err(error) => Err(error),
        };
        records.push(record);
        index = index + 1;
    }
    records
}

} // verus!
