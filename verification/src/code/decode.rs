use super::error::Error;
use super::format::{
    decoded, digit_count, digits_value, integer, number_operand, Decoder, CALL, CLOSE, CONSTANT,
    GET, HALT, IF, INSTRUCTION_MASK, INTEGER_DIGITS, LOCAL_BASE, NOP, RETURN_CALL, SET, SKIP,
    SYMBOL,
};
use super::instruction::{
    lemma_views, lemma_views_drop_last, lemma_views_push, views, Instruction, InstructionView,
    Operand,
};
use super::laws::power;
use super::program::{names, Program, ProgramView};
use vstd::prelude::*;

verus! {

/// The names and the instructions that a decoder has read.
struct Reader {
    symbols: Vec<String>,
    done: Vec<Instruction>,
}

impl View for Reader {
    type V = Decoder;

    closed spec fn view(&self) -> Decoder {
        Decoder { symbols: names(self.symbols@), done: views(self.done@) }
    }
}

/// Decodes a program from bytes.
pub fn decode(codes: &[u8]) -> (result: Result<Program, Error>)
    ensures
        match decoded(codes@) {
            Ok(program) => result is Ok && result->Ok_0@ == program,
            Err(error) => result is Err && result->Err_0 == error,
        },
{
    let mut reader = Reader { symbols: Vec::new(), done: Vec::new() };
    let mut position: usize = 0;

    proof {
        assert(views(reader.done@) =~= Seq::empty());
        assert(reader@.symbols =~= Decoder::start().symbols);
        assert(codes@.skip(0) =~= codes@);
    }
    while position < codes.len()
        invariant
            position <= codes.len(),
            reader@.run(codes@.skip(position as int)) == decoded(codes@),
        decreases codes.len() - position,
    {
        let ghost bytes = codes@.skip(position as int);
        let end = digits_end(codes, position);

        if end >= codes.len() - 1 {
            return Err(Error::EndOfInput);
        }
        let number = decode_integer(codes, position, end + 1);
        let opcode = codes[end + 1] & INSTRUCTION_MASK;
        let ghost rest = codes@.skip(end + 2);

        proof {
            assert(bytes.subrange(0, end - position + 1) =~= codes@.subrange(
                position as int,
                end + 1,
            ));
            assert(bytes.skip(end - position + 2) =~= rest);
            assert(bytes[end - position + 1] == codes@[end + 1]);
        }
        if opcode == SYMBOL {
            let length = match number {
                Some(length) => length,
                None => {
                    return Err(Error::MissingInteger);
                },
            };
            if length > (codes.len() - end - 2) as u64 {
                return Err(Error::EndOfInput);
            }
            let length = length as usize;
            let (next, named) = read_name(reader, codes, end + 2, length);

            reader = match named {
                true => next,
                false => {
                    return Err(Error::Utf8);
                },
            };
            proof {
                assert(rest.skip(length as int) =~= codes@.skip(end + 2 + length));
            }
            position = end + 2 + length;
        } else if opcode == CLOSE {
            let more = digits_end(codes, end + 2);

            if more >= codes.len() {
                return Err(Error::EndOfInput);
            }
            let size = decode_integer(codes, end + 2, more + 1);

            proof {
                assert(rest.subrange(0, more - (end + 2) + 1) =~= codes@.subrange(
                    end + 2,
                    more + 1,
                ));
                assert(rest.skip(more - (end + 2) + 1) =~= codes@.skip(more + 1));
            }
            reader = match close(reader, number, size) {
                Ok(reader) => reader,
                Err(error) => {
                    return Err(error);
                },
            };
            position = more + 1;
        } else {
            reader = match step(reader, number, opcode) {
                Ok(reader) => reader,
                Err(error) => {
                    return Err(error);
                },
            };
            position = end + 2;
        }
    }
    proof {
        assert(codes@.skip(position as int).len() == 0);
    }
    let Reader { symbols, done } = reader;

    Ok(Program::new(symbols, done))
}

/// Reads a name of a number of bytes from an index on and puts it behind
/// the names read so far, where the bytes are text in UTF-8.
fn read_name(reader: Reader, codes: &[u8], start: usize, length: usize) -> (result: (Reader, bool))
    requires
        start + length <= codes.len(),
    ensures
        result.1 == vstd::utf8::valid_utf8(codes@.skip(start as int).subrange(0, length as int)),
        result.1 ==> result.0@ == reader@.name(
            vstd::utf8::decode_utf8(codes@.skip(start as int).subrange(0, length as int)),
        ),
{
    let mut bytes: Vec<u8> = Vec::new();
    let mut index: usize = 0;

    while index < length
        invariant
            index <= length,
            start + length <= codes.len(),
            bytes@ == codes@.subrange(start as int, start + index),
        decreases length - index,
    {
        bytes.push(codes[start + index]);
        index = index + 1;
        assert(bytes@ =~= codes@.subrange(start as int, start + index));
    }
    proof {
        assert(bytes@ =~= codes@.skip(start as int).subrange(0, length as int));
    }
    let Reader { symbols, done } = reader;
    let mut symbols = symbols;

    match String::from_utf8(bytes) {
        Ok(name) => {
            symbols.push(name);
            let result = Reader { symbols, done };

            proof {
                assert(result@.symbols =~= reader@.symbols.push(name@));
            }
            (result, true)
        },
        Err(_) => (Reader { symbols, done }, false),
    }
}

/// Returns the index of the last digit of the number that starts at an
/// index: the first byte from there on without the sign bit, or the length
/// of the input where there is none.
pub fn digits_end(codes: &[u8], position: usize) -> (end: usize)
    requires
        position <= codes.len(),
    ensures
        position <= end <= codes.len(),
        end - position == digit_count(codes@.skip(position as int)),
        forall|i: int| position <= i < end ==> codes@[i] >= 128,
        end < codes.len() ==> codes@[end as int] < 128,
{
    let mut end = position;

    while end < codes.len() && codes[end] >= 128
        invariant
            position <= end <= codes.len(),
            forall|i: int| position <= i < end ==> codes@[i] >= 128,
            digit_count(codes@.skip(position as int)) == end - position + digit_count(
                codes@.skip(end as int),
            ),
        decreases codes.len() - end,
    {
        proof {
            assert(codes@.skip(end as int).drop_first() =~= codes@.skip(end + 1));
        }
        end = end + 1;
    }
    proof {
        if end < codes.len() {
            assert(codes@.skip(end as int)[0] == codes@[end as int]);
        }
    }
    end
}

/// A power of the base is no greater than a higher one.
proof fn lemma_power_grows(low: nat, high: nat)
    requires
        low <= high,
    ensures
        power(low) <= power(high),
    decreases high,
{
    if low < high {
        lemma_power_grows(low, (high - 1) as nat);
    }
}

/// Returns the number that the digits between two indices stand for.
pub fn decode_integer(codes: &[u8], position: usize, end: usize) -> (result: Option<u64>)
    requires
        position <= end <= codes.len(),
    ensures
        result == integer(codes@.subrange(position as int, end as int)),
{
    if end - position > INTEGER_DIGITS {
        return None;
    }
    let mut value: u128 = 0;
    let mut index = end;

    proof {
        assert(codes@.subrange(end as int, end as int) =~= Seq::<u8>::empty());
        assert(power(10) == 0x40_0000_0000_0000_0000) by {
            reveal_with_fuel(power, 11);
        }
    }
    while index > position
        invariant
            position <= index <= end <= codes.len(),
            end - position <= 10,
            value == digits_value(codes@.subrange(index as int, end as int)),
            value < power((end - index) as nat),
            power(10) == 0x40_0000_0000_0000_0000,
        decreases index,
    {
        proof {
            lemma_power_grows((end - index) as nat, 9);
            lemma_power_grows(9, 10);
            assert(power(10) == 128 * power(9));
            let longer = codes@.subrange(index - 1, end as int);
            assert(longer.drop_first() =~= codes@.subrange(index as int, end as int));
            assert(longer[0] == codes@[index - 1]);
        }
        index = index - 1;
        value = value * 128 + (codes[index] % 128) as u128;
    }
    if value > u64::MAX as u128 {
        None
    } else {
        Some(value as u64)
    }
}

/// Returns the operand that a number stands for.
pub fn decode_operand(number: u64) -> (result: Operand)
    ensures
        result == number_operand(number),
{
    if number < LOCAL_BASE {
        Operand::Global(number)
    } else if number == LOCAL_BASE {
        Operand::Local(0)
    } else {
        Operand::Local(u64::MAX - number + 1)
    }
}

/// Takes the last instructions of a number off a sequence.
fn take_last(instructions: Vec<Instruction>, count: usize) -> (result: (
    Vec<Instruction>,
    Vec<Instruction>,
))
    requires
        count <= instructions.len(),
    ensures
        views(result.0@) == views(instructions@).subrange(0, instructions.len() - count),
        views(result.1@) == views(instructions@).subrange(
            instructions.len() - count,
            instructions.len() as int,
        ),
{
    let mut front = instructions;
    let mut reversed: Vec<Instruction> = Vec::new();
    let ghost all = views(instructions@);

    proof {
        lemma_views(instructions@);
        lemma_views(reversed@);
    }
    while reversed.len() < count
        invariant
            reversed.len() <= count,
            front.len() + reversed.len() == all.len(),
            count <= all.len(),
            views(front@) == all.subrange(0, front.len() as int),
            views(reversed@).len() == reversed.len(),
            forall|i: int|
                0 <= i < reversed.len() ==> #[trigger] views(reversed@)[i] == all[all.len() - 1
                    - i],
        decreases count - reversed.len(),
    {
        let ghost before = front@;
        let ghost taken = reversed@;

        proof {
            lemma_views(before);
        }
        match front.pop() {
            Some(instruction) => {
                reversed.push(instruction);
                proof {
                    lemma_views_drop_last(before);
                    lemma_views_push(taken, instruction);
                    lemma_views(taken);
                    assert(views(front@) =~= all.subrange(0, front.len() as int));
                    assert(views(before).last() == all[before.len() - 1]);
                }
            },
            None => {},
        }
    }
    let mut back: Vec<Instruction> = Vec::new();

    proof {
        lemma_views(back@);
    }
    while reversed.len() > 0
        invariant
            reversed.len() + back.len() == count,
            count <= all.len(),
            views(reversed@).len() == reversed.len(),
            views(back@).len() == back.len(),
            forall|i: int|
                0 <= i < reversed.len() ==> #[trigger] views(reversed@)[i] == all[all.len() - 1
                    - i],
            forall|i: int|
                0 <= i < back.len() ==> #[trigger] views(back@)[i] == all[all.len() - count + i],
        decreases reversed.len(),
    {
        let ghost rest = reversed@;
        let ghost made = back@;

        proof {
            lemma_views(rest);
        }
        match reversed.pop() {
            Some(instruction) => {
                back.push(instruction);
                proof {
                    lemma_views_drop_last(rest);
                    lemma_views_push(made, instruction);
                    lemma_views(made);
                    assert(views(rest).last() == all[all.len() - 1 - (rest.len() - 1)]);
                    assert forall|i: int| 0 <= i < reversed.len() implies #[trigger] views(
                        reversed@,
                    )[i] == all[all.len() - 1 - i] by {
                        assert(views(reversed@)[i] == views(rest)[i]);
                    }
                    assert forall|i: int| 0 <= i < back.len() implies #[trigger] views(back@)[i]
                        == all[all.len() - count + i] by {
                        if i < made.len() {
                            assert(views(back@)[i] == views(made)[i]);
                        }
                    }
                }
            },
            None => {},
        }
    }
    proof {
        assert(views(back@) =~= all.subrange(all.len() - count, all.len() as int));
    }
    (front, back)
}

/// Puts an instruction behind the instructions read so far.
fn put(reader: Reader, instruction: Instruction) -> (result: Reader)
    ensures
        result@ == reader@.put(instruction@),
{
    let Reader { symbols, done } = reader;
    let mut done = done;
    let ghost before = done@;

    done.push(instruction);
    proof {
        lemma_views_push(before, instruction);
    }
    Reader { symbols, done }
}

/// Takes the step of a number, if there is one, and an opcode.
fn step(reader: Reader, number: Option<u64>, opcode: u8) -> (result: Result<Reader, Error>)
    ensures
        match reader@.step(number, opcode) {
            Ok(next) => result is Ok && result->Ok_0@ == next,
            Err(error) => result is Err && result->Err_0 == error,
        },
{
    if opcode == CONSTANT || opcode == NOP || opcode == SKIP || opcode == IF {
        let number = match number {
            Some(number) => number,
            None => {
                return Err(Error::MissingInteger);
            },
        };
        if opcode == CONSTANT {
            Ok(put(reader, Instruction::Constant(number)))
        } else if opcode == NOP {
            Ok(put(reader, Instruction::Nop(number)))
        } else if opcode == SKIP {
            Ok(put(reader, Instruction::Skip(number)))
        } else {
            proof {
                lemma_views(reader.done@);
            }
            if number > reader.done.len() as u64 {
                return Err(Error::MissingElseBranch);
            }
            let Reader { symbols, done } = reader;
            let (front, then) = take_last(done, number as usize);

            Ok(put(Reader { symbols, done: front }, Instruction::If(then)))
        }
    } else if opcode == GET || opcode == SET || opcode == CALL || opcode == RETURN_CALL {
        let operand = match number {
            Some(number) => decode_operand(number),
            None => {
                return Err(Error::MissingOperand);
            },
        };
        if opcode == GET {
            Ok(put(reader, Instruction::Get(operand)))
        } else if opcode == SET {
            Ok(put(reader, Instruction::Store(operand)))
        } else {
            Ok(put(reader, Instruction::Apply(operand, opcode == RETURN_CALL)))
        }
    } else if opcode == HALT {
        Ok(put(reader, Instruction::Halt))
    } else {
        Err(Error::IllegalInstruction)
    }
}

/// Makes the instruction of a procedure of the number of its parameters
/// and the instructions of its body, which are taken from those read so far.
fn close(reader: Reader, arity: Option<u64>, size: Option<u64>) -> (result: Result<Reader, Error>)
    ensures
        match reader@.close(arity, size) {
            Ok(next) => result is Ok && result->Ok_0@ == next,
            Err(error) => result is Err && result->Err_0 == error,
        },
{
    match (arity, size) {
        (Some(arity), Some(size)) => {
            proof {
                lemma_views(reader.done@);
            }
            if size > reader.done.len() as u64 {
                return Err(Error::MissingClosureBody);
            }
            let Reader { symbols, done } = reader;
            let (front, body) = take_last(done, size as usize);

            Ok(put(Reader { symbols, done: front }, Instruction::Close(arity, body)))
        },
        _ => Err(Error::MissingInteger),
    }
}

} // verus!
