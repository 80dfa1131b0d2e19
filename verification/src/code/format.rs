//! The format of a program in bytes.
//!
//! A program is the names of its global variables and its instructions.  The
//! names are written first, each as the number of the bytes of the name in
//! UTF-8 and the opcode for a name, followed by those bytes.  The global
//! variable of a number has the name at that place, if there is one.
//!
//! The instructions are written in their order, one after the other.  An
//! instruction is written as its number and a byte with the opcode in its low
//! four bits.  A number is written in digits to the base 128, one byte for
//! each digit and the lowest digit first; the sign bit of a byte is set where
//! another digit follows, also on a digit that is zero, so that the last
//! digit is the one byte without it, and a number below 128 is the one byte
//! equal to it.  A number has at most ten digits.
//!
//! The operand of a variable is one number: the number of a global variable
//! as it is, and the number of a local variable negated.  The local variable
//! zero, whose number negated is zero as well, is written as the least
//! negative number instead, which no other variable is written as.
//!
//! The instructions of a branch, and those of the body of a procedure, are
//! written in front of the instruction that they belong to.  The number of a
//! branch is the number of the instructions in front of it that are its own;
//! the number of a procedure is the number of its parameters, and the number
//! of the instructions of its body follows behind the opcode.

use super::error::Error;
use super::instruction::{InstructionView, Operand};
use super::program::ProgramView;
use vstd::prelude::*;
use vstd::utf8::{decode_utf8, encode_utf8, valid_utf8};

verus! {

/// The number of bits that hold an opcode.
pub const INSTRUCTION_BITS: u64 = 4;

/// The bits of a byte that hold an opcode.
pub const INSTRUCTION_MASK: u8 = 15;

/// The base of the digits of a number.
pub const INTEGER_BASE: u64 = 128;

/// The base of the numbers that fit in the bits of a byte that an opcode
/// and a sign leave over.
pub const SHORT_INTEGER_BASE: u64 = 8;

/// The greatest number of digits of a number.
pub const INTEGER_DIGITS: usize = 10;

/// The opcode of the instruction that pushes a number.
pub const CONSTANT: u8 = 0;

/// The opcode of the instruction that pushes the value of a variable.
pub const GET: u8 = 1;

/// The opcode of the instruction that pops a value into a variable.
pub const SET: u8 = 2;

/// The opcode of the instruction that branches.
pub const IF: u8 = 3;

/// The opcode of the instruction that does nothing.
pub const NOP: u8 = 4;

/// The opcode of the instruction that applies a procedure in a call that
/// is no tail call.
pub const CALL: u8 = 5;

/// The opcode of the instruction that pushes the code of a procedure.
pub const CLOSE: u8 = 6;

/// The opcode of the instruction that jumps.
pub const SKIP: u8 = 7;

/// The opcode of the instruction that applies a procedure in a tail call.
pub const RETURN_CALL: u8 = 8;

/// The opcode of the instruction that ends a run.
pub const HALT: u8 = 9;

/// The opcode in front of the bytes of a name.
pub const SYMBOL: u8 = 10;

/// The least number that stands for a local variable.
pub const LOCAL_BASE: u64 = 0x8000_0000_0000_0000;

/// The number that an operand is written as: the number of a global
/// variable, and the number of a local variable negated; the least negative
/// number for the local variable zero.
pub open spec fn operand_number(operand: Operand) -> u64 {
    match operand {
        Operand::Global(number) => number,
        Operand::Local(number) => if number == 0 {
            LOCAL_BASE
        } else {
            (0x1_0000_0000_0000_0000 - number) as u64
        },
    }
}

/// The operand that a number stands for: a global variable for a number
/// that is not negative, and else a local variable.
pub open spec fn number_operand(number: u64) -> Operand {
    if number < LOCAL_BASE {
        Operand::Global(number)
    } else if number == LOCAL_BASE {
        Operand::Local(0)
    } else {
        Operand::Local((0x1_0000_0000_0000_0000 - number) as u64)
    }
}

/// The digits of a number, the lowest first: the sign bit is set on every
/// digit but the last.
pub open spec fn digits(number: nat) -> Seq<u8>
    decreases number,
{
    if number < 128 {
        seq![number as u8]
    } else {
        seq![(128 + number % 128) as u8] + digits(number / 128)
    }
}

/// The number that digits stand for.
pub open spec fn digits_value(digits: Seq<u8>) -> nat
    decreases digits.len(),
{
    if digits.len() == 0 {
        0
    } else {
        (digits[0] % 128 + 128 * digits_value(digits.drop_first())) as nat
    }
}

/// The number of bytes at the front of a sequence whose sign bit is set:
/// the digits of a number but the last.
pub open spec fn digit_count(bytes: Seq<u8>) -> nat
    decreases bytes.len(),
{
    if bytes.len() == 0 || bytes[0] < 128 {
        0
    } else {
        1 + digit_count(bytes.drop_first())
    }
}

/// The number that digits stand for, if they are no more than ten and it
/// takes no more than sixty-four bits.
pub open spec fn integer(digits: Seq<u8>) -> Option<u64> {
    if digits.len() > INTEGER_DIGITS || digits_value(digits) > u64::MAX {
        None
    } else {
        Some(digits_value(digits) as u64)
    }
}

/// The state of a decoder: the names and the instructions read so far.
pub struct Decoder {
    pub symbols: Seq<Seq<char>>,
    pub done: Seq<InstructionView>,
}

impl Decoder {
    /// The decoder at the start of the input.
    pub open spec fn start() -> Decoder {
        Decoder { symbols: Seq::empty(), done: Seq::empty() }
    }

    /// A name is put behind the names read so far.
    pub open spec fn name(self, symbol: Seq<char>) -> Decoder {
        Decoder { symbols: self.symbols.push(symbol), ..self }
    }

    /// An instruction is put behind the instructions read so far.
    pub open spec fn put(self, instruction: InstructionView) -> Decoder {
        Decoder { done: self.done.push(instruction), ..self }
    }

    /// The instructions read so far without the last `count`.
    pub open spec fn front(self, count: u64) -> Seq<InstructionView> {
        self.done.subrange(0, self.done.len() - count)
    }

    /// The last `count` of the instructions read so far.
    pub open spec fn back(self, count: u64) -> Seq<InstructionView> {
        self.done.subrange(self.done.len() - count, self.done.len() as int)
    }

    /// What an instruction of a number and an opcode makes of the decoder.
    /// A branch takes the instructions in front of it that its number counts.
    pub open spec fn step(self, integer: Option<u64>, opcode: u8) -> Result<Decoder, Error> {
        if opcode == CONSTANT || opcode == NOP || opcode == SKIP || opcode == IF {
            match integer {
                None => Err(Error::MissingInteger),
                Some(number) => if opcode == CONSTANT {
                    Ok(self.put(InstructionView::Constant(number)))
                } else if opcode == NOP {
                    Ok(self.put(InstructionView::Nop(number)))
                } else if opcode == SKIP {
                    Ok(self.put(InstructionView::Skip(number)))
                } else if number > self.done.len() {
                    Err(Error::MissingElseBranch)
                } else {
                    Ok(
                        Decoder {
                            done: self.front(number).push(InstructionView::If(self.back(number))),
                            ..self
                        },
                    )
                },
            }
        } else if opcode == GET || opcode == SET || opcode == CALL || opcode == RETURN_CALL {
            match integer {
                None => Err(Error::MissingOperand),
                Some(number) => {
                    let operand = number_operand(number);
                    if opcode == GET {
                        Ok(self.put(InstructionView::Get(operand)))
                    } else if opcode == SET {
                        Ok(self.put(InstructionView::Store(operand)))
                    } else {
                        Ok(self.put(InstructionView::Apply(operand, opcode == RETURN_CALL)))
                    }
                },
            }
        } else if opcode == HALT {
            Ok(self.put(InstructionView::Halt))
        } else {
            Err(Error::IllegalInstruction)
        }
    }

    /// What the instruction of a procedure makes of the decoder: the body is
    /// the instructions in front of it that the number behind its opcode
    /// counts.
    pub open spec fn close(self, arity: Option<u64>, size: Option<u64>) -> Result<Decoder, Error> {
        match (arity, size) {
            (Some(arity), Some(size)) => if size > self.done.len() {
                Err(Error::MissingClosureBody)
            } else {
                Ok(
                    Decoder {
                        done: self.front(size).push(InstructionView::Close(arity, self.back(size))),
                        ..self
                    },
                )
            },
            _ => Err(Error::MissingInteger),
        }
    }

    /// What the decoder returns for the bytes that are left to read.  Every
    /// instruction starts with the digits of its number, which end at the
    /// first byte without the sign bit; the byte behind holds the opcode.
    /// The opcode for a name is followed by as many bytes as its number says,
    /// which must be text in UTF-8, and the opcode of a procedure by the
    /// digits of one more number.  At the end of the input, the decoder
    /// returns what it read; where the input ends within an instruction, it
    /// fails.
    pub open spec fn run(self, bytes: Seq<u8>) -> Result<ProgramView, Error>
        decreases bytes.len(),
    {
        if bytes.len() == 0 {
            Ok(ProgramView { symbols: self.symbols, instructions: self.done })
        } else {
            let count = digit_count(bytes) as int;
            let rest = bytes.skip(count + 2);
            if count + 1 >= bytes.len() {
                Err(Error::EndOfInput)
            } else if bytes[count + 1] & INSTRUCTION_MASK == SYMBOL {
                match integer(bytes.subrange(0, count + 1)) {
                    None => Err(Error::MissingInteger),
                    Some(length) => if rest.len() < length {
                        Err(Error::EndOfInput)
                    } else if !valid_utf8(rest.subrange(0, length as int)) {
                        Err(Error::Utf8)
                    } else {
                        self.name(decode_utf8(rest.subrange(0, length as int))).run(
                            rest.skip(length as int),
                        )
                    },
                }
            } else if bytes[count + 1] & INSTRUCTION_MASK == CLOSE {
                let more = digit_count(rest) as int;
                if more >= rest.len() {
                    Err(Error::EndOfInput)
                } else {
                    match self.close(
                        integer(bytes.subrange(0, count + 1)),
                        integer(rest.subrange(0, more + 1)),
                    ) {
                        Err(error) => Err(error),
                        Ok(next) => next.run(rest.skip(more + 1)),
                    }
                }
            } else {
                match self.step(
                    integer(bytes.subrange(0, count + 1)),
                    bytes[count + 1] & INSTRUCTION_MASK,
                ) {
                    Err(error) => Err(error),
                    Ok(next) => next.run(rest),
                }
            }
        }
    }
}

/// The program that a sequence of bytes stands for.
pub open spec fn decoded(bytes: Seq<u8>) -> Result<ProgramView, Error> {
    Decoder::start().run(bytes)
}

/// The bytes of a name: the number of its bytes in UTF-8, the opcode for a
/// name, and the bytes.
pub open spec fn encoded_symbol(symbol: Seq<char>) -> Seq<u8> {
    numbered(encode_utf8(symbol).len() as u64, SYMBOL) + encode_utf8(symbol)
}

/// The bytes of names, those of the first name first.
pub open spec fn encoded_symbols(symbols: Seq<Seq<char>>) -> Seq<u8>
    decreases symbols.len(),
{
    if symbols.len() == 0 {
        Seq::empty()
    } else {
        encoded_symbol(symbols[0]) + encoded_symbols(symbols.drop_first())
    }
}

/// The bytes of a program: the names, then the instructions.
pub open spec fn encoded_program(program: ProgramView) -> Seq<u8> {
    encoded_symbols(program.symbols) + encoded_list(program.instructions)
}

/// The bytes of an instruction of a number and an opcode: the digits of the
/// number and the opcode.
pub open spec fn numbered(number: u64, opcode: u8) -> Seq<u8> {
    digits(number as nat).push(opcode)
}

/// The bytes of an instruction.
pub open spec fn encoded(instruction: InstructionView) -> Seq<u8>
    decreases instruction,
{
    match instruction {
        InstructionView::Constant(number) => numbered(number, CONSTANT),
        InstructionView::Get(operand) => numbered(operand_number(operand), GET),
        InstructionView::Store(operand) => numbered(operand_number(operand), SET),
        InstructionView::If(then) => encoded_list(then) + numbered(then.len() as u64, IF),
        InstructionView::Nop(number) => numbered(number, NOP),
        InstructionView::Apply(operand, tail) => numbered(
            operand_number(operand),
            if tail {
                RETURN_CALL
            } else {
                CALL
            },
        ),
        InstructionView::Close(arity, body) => encoded_list(body) + numbered(arity, CLOSE) + digits(
            body.len(),
        ),
        InstructionView::Skip(count) => numbered(count, SKIP),
        InstructionView::Halt => numbered(0, HALT),
    }
}

/// The bytes of a sequence of instructions: those of each instruction, in
/// the order of the instructions.
pub open spec fn encoded_list(instructions: Seq<InstructionView>) -> Seq<u8>
    decreases instructions,
{
    if instructions.len() == 0 {
        Seq::empty()
    } else {
        encoded_list(instructions.drop_last()) + encoded(instructions.last())
    }
}

/// The operand can be written: its number is below two to the power of
/// sixty-three.
pub open spec fn valid_operand(operand: Operand) -> bool {
    match operand {
        Operand::Global(number) => number < LOCAL_BASE,
        Operand::Local(number) => number < LOCAL_BASE,
    }
}

/// The instruction can be written: its operand can, and the instructions of
/// its branch or its body can and are no more than sixty-four bits count.
pub open spec fn valid(instruction: InstructionView) -> bool
    decreases instruction,
{
    match instruction {
        InstructionView::Get(operand) => valid_operand(operand),
        InstructionView::Store(operand) => valid_operand(operand),
        InstructionView::Apply(operand, _) => valid_operand(operand),
        InstructionView::If(then) => then.len() <= u64::MAX && valid_instructions(then),
        InstructionView::Close(_, body) => body.len() <= u64::MAX && valid_instructions(body),
        _ => true,
    }
}

/// The instructions can be written: each of them can.
pub open spec fn valid_instructions(instructions: Seq<InstructionView>) -> bool
    decreases instructions,
{
    instructions.len() == 0 || (valid(instructions.last()) && valid_instructions(
        instructions.drop_last(),
    ))
}

/// The names can be written: the number of the bytes of each takes no more
/// than sixty-four bits.
pub open spec fn valid_symbols(symbols: Seq<Seq<char>>) -> bool {
    forall|i: int| 0 <= i < symbols.len() ==> encode_utf8(#[trigger] symbols[i]).len() <= u64::MAX
}

/// The program can be written: its names and its instructions can.
pub open spec fn valid_program(program: ProgramView) -> bool {
    valid_symbols(program.symbols) && valid_instructions(program.instructions)
}

} // verus!
