//! What holds of the format: decoding the bytes of a program gives the
//! program back, and the bytes of instructions are the bytes of each in their
//! order.

use super::error::Error;
use super::format::{
    decoded, digit_count, digits, digits_value, encoded, encoded_list, encoded_program,
    encoded_symbol, encoded_symbols, integer, number_operand, numbered, operand_number, valid,
    valid_instructions, valid_operand, valid_program, valid_symbols, Decoder, CALL, CLOSE,
    CONSTANT, GET, HALT, IF, INSTRUCTION_MASK, NOP, RETURN_CALL, SET, SKIP, SYMBOL,
};
use super::instruction::{InstructionView, Operand};
use super::program::ProgramView;
use vstd::prelude::*;
use vstd::utf8::{decode_utf8, encode_utf8, valid_utf8};

verus! {

/// The powers of the base of the digits.
pub open spec fn power(exponent: nat) -> nat
    decreases exponent,
{
    if exponent == 0 {
        1
    } else {
        128 * power((exponent - 1) as nat)
    }
}

/// A number below a power of the base has no more digits than the exponent.
pub proof fn lemma_digits_length(number: nat, exponent: nat)
    requires
        exponent >= 1,
        number < power(exponent),
    ensures
        1 <= digits(number).len() <= exponent,
    decreases exponent,
{
    if number >= 128 {
        assert(power(1) == 128) by {
            reveal_with_fuel(power, 2);
        }
        assert(exponent >= 2);
        assert(power(exponent) == 128 * power((exponent - 1) as nat));
        lemma_digits_length(number / 128, (exponent - 1) as nat);
    }
}

/// The digits of a number stand for the number.  All of them but the last
/// have the sign bit set, and the last has not: whatever follows them, they
/// are told from it.  A number below the base is the one byte equal to it.
pub proof fn lemma_digits(number: nat, rest: Seq<u8>)
    ensures
        digits_value(digits(number)) == number,
        digit_count(digits(number) + rest) == digits(number).len() - 1,
        digits(number).len() >= 1,
        digits(number).last() < 128,
        forall|i: int| 0 <= i < digits(number).len() - 1 ==> #[trigger] digits(number)[i] >= 128,
        number < 128 ==> digits(number) == seq![number as u8],
    decreases number,
{
    let all = digits(number) + rest;
    if number < 128 {
        assert(digits(number).drop_first() =~= Seq::<u8>::empty());
        assert(digits_value(digits(number).drop_first()) == 0);
    } else {
        lemma_digits(number / 128, rest);
        let later = digits(number / 128);
        assert(digits(number).drop_first() =~= later);
        assert(digits(number)[0] == 128 + number % 128);
        assert(number == 128 * (number / 128) + number % 128);
        assert(all.drop_first() =~= later + rest);
        assert(digits(number).last() == later.last());
        assert forall|i: int| 0 <= i < digits(number).len() - 1 implies #[trigger] digits(
            number,
        )[i] >= 128 by {
            if i > 0 {
                assert(digits(number)[i] == later[i - 1]);
            }
        }
    }
}

/// The digits of a number of sixty-four bits stand for it, are told from
/// what follows, and are no more than ten.
pub proof fn lemma_integer(number: u64, rest: Seq<u8>)
    ensures
        integer(digits(number as nat)) == Some(number),
        digit_count(digits(number as nat) + rest) == digits(number as nat).len() - 1,
        digits(number as nat).len() >= 1,
{
    lemma_digits(number as nat, rest);
    assert(power(10) == 0x40_0000_0000_0000_0000) by {
        reveal_with_fuel(power, 11);
    }
    lemma_digits_length(number as nat, 10);
}

/// The opcodes are their own low four bits.
pub proof fn lemma_mask(opcode: u8)
    requires
        opcode < 16,
    ensures
        opcode & INSTRUCTION_MASK == opcode,
{
    assert(opcode < 16 ==> opcode & 15 == opcode) by (bit_vector);
}

/// Reading the bytes of an instruction of a number and an opcode takes the
/// step of that number and that opcode.
pub proof fn lemma_numbered(decoder: Decoder, number: u64, opcode: u8, rest: Seq<u8>)
    requires
        opcode < 16,
        opcode != SYMBOL,
        opcode != CLOSE,
    ensures
        decoder.run(numbered(number, opcode) + rest) == match decoder.step(Some(number), opcode) {
            Err(error) => Err::<ProgramView, Error>(error),
            Ok(next) => next.run(rest),
        },
{
    let written = digits(number as nat);
    let bytes = numbered(number, opcode) + rest;
    let tail = seq![opcode] + rest;
    assert(bytes =~= written + tail);
    lemma_integer(number, tail);
    let count = written.len() - 1;
    assert(bytes.subrange(0, count + 1) =~= written);
    assert(bytes.skip(count + 2) =~= rest);
    assert(bytes[count + 1] == opcode);
    lemma_mask(opcode);
}

/// Reading the bytes of the instruction of a procedure takes the
/// instructions of its body from those read so far.
pub proof fn lemma_closed(decoder: Decoder, arity: u64, size: u64, rest: Seq<u8>)
    ensures
        decoder.run(numbered(arity, CLOSE) + digits(size as nat) + rest) == match decoder.close(
            Some(arity),
            Some(size),
        ) {
            Err(error) => Err::<ProgramView, Error>(error),
            Ok(next) => next.run(rest),
        },
{
    let written = digits(arity as nat);
    let counted = digits(size as nat);
    let bytes = numbered(arity, CLOSE) + counted + rest;
    let tail = seq![CLOSE] + (counted + rest);
    assert(bytes =~= written + tail);
    lemma_integer(arity, tail);
    let count = written.len() - 1;
    assert(bytes.subrange(0, count + 1) =~= written);
    assert(bytes[count + 1] == CLOSE);
    lemma_mask(CLOSE);
    let after = bytes.skip(count + 2);
    assert(after =~= counted + rest);
    lemma_integer(size, rest);
    let more = counted.len() - 1;
    assert(after.subrange(0, more + 1) =~= counted);
    assert(after.skip(more + 1) =~= rest);
}

/// An operand that can be written is the operand that its number stands
/// for: a local variable is told from a global one, the local variable zero
/// as well.
pub proof fn lemma_operand(operand: Operand)
    requires
        valid_operand(operand),
    ensures
        number_operand(operand_number(operand)) == operand,
        operand matches Operand::Local(number) ==> operand_number(operand) >= 0x8000_0000_0000_0000,
        operand matches Operand::Global(number) ==> operand_number(operand) < 0x8000_0000_0000_0000,
{
}

/// The bytes of instructions one after the other are the bytes of the
/// first followed by the bytes of the others.
pub proof fn lemma_encoded_concat(first: Seq<InstructionView>, second: Seq<InstructionView>)
    ensures
        encoded_list(first + second) == encoded_list(first) + encoded_list(second),
    decreases second.len(),
{
    if second.len() == 0 {
        assert(first + second =~= first);
        assert(encoded_list(first) + encoded_list(second) =~= encoded_list(first));
    } else {
        let all = first + second;
        assert(all.drop_last() =~= first + second.drop_last());
        assert(all.last() == second.last());
        lemma_encoded_concat(first, second.drop_last());
        assert(encoded_list(all) =~= encoded_list(first) + encoded_list(second));
    }
}

/// Reading the bytes of an instruction that can be written puts the
/// instruction behind the instructions read so far.
pub proof fn lemma_instruction(decoder: Decoder, instruction: InstructionView, rest: Seq<u8>)
    requires
        valid(instruction),
    ensures
        decoder.run(encoded(instruction) + rest) == decoder.put(instruction).run(rest),
    decreases instruction, 0nat,
{
    match instruction {
        InstructionView::Constant(number) => {
            lemma_numbered(decoder, number, CONSTANT, rest);
        },
        InstructionView::Get(operand) => {
            lemma_operand(operand);
            lemma_numbered(decoder, operand_number(operand), GET, rest);
        },
        InstructionView::Store(operand) => {
            lemma_operand(operand);
            lemma_numbered(decoder, operand_number(operand), SET, rest);
        },
        InstructionView::Nop(number) => {
            lemma_numbered(decoder, number, NOP, rest);
        },
        InstructionView::Skip(count) => {
            lemma_numbered(decoder, count, SKIP, rest);
        },
        InstructionView::Halt => {
            lemma_numbered(decoder, 0, HALT, rest);
        },
        InstructionView::Apply(operand, tail) => {
            lemma_operand(operand);
            lemma_numbered(
                decoder,
                operand_number(operand),
                if tail {
                    RETURN_CALL
                } else {
                    CALL
                },
                rest,
            );
        },
        InstructionView::If(then) => {
            let size = then.len() as u64;
            let after = numbered(size, IF) + rest;
            assert(encoded(instruction) + rest =~= encoded_list(then) + after);
            lemma_list(decoder, then, after);
            let read = Decoder { done: decoder.done + then, ..decoder };
            lemma_numbered(read, size, IF, rest);
            assert(read.front(size) =~= decoder.done);
            assert(read.back(size) =~= then);
        },
        InstructionView::Close(arity, body) => {
            let size = body.len() as u64;
            let after = numbered(arity, CLOSE) + digits(size as nat) + rest;
            assert(encoded(instruction) + rest =~= encoded_list(body) + after);
            lemma_list(decoder, body, after);
            let read = Decoder { done: decoder.done + body, ..decoder };
            lemma_closed(read, arity, size, rest);
            assert(read.front(size) =~= decoder.done);
            assert(read.back(size) =~= body);
        },
    }
}

/// Reading the bytes of instructions that can be written puts them behind
/// the instructions read so far.
pub proof fn lemma_list(decoder: Decoder, instructions: Seq<InstructionView>, rest: Seq<u8>)
    requires
        valid_instructions(instructions),
    ensures
        decoder.run(encoded_list(instructions) + rest) == (Decoder {
            done: decoder.done + instructions,
            ..decoder
        }).run(rest),
    decreases instructions, 1nat,
{
    if instructions.len() == 0 {
        assert(encoded_list(instructions) + rest =~= rest);
        assert(decoder.done + instructions =~= decoder.done);
    } else {
        let last = instructions.last();
        let front = instructions.drop_last();
        let after = encoded(last) + rest;
        assert(encoded_list(instructions) + rest =~= encoded_list(front) + after);
        lemma_list(decoder, front, after);
        let read = Decoder { done: decoder.done + front, ..decoder };
        lemma_instruction(read, last, rest);
        assert((decoder.done + front).push(last) =~= decoder.done + instructions);
    }
}

/// Reading the bytes of a name puts the name behind the names read so far.
pub proof fn lemma_symbol(decoder: Decoder, symbol: Seq<char>, rest: Seq<u8>)
    requires
        encode_utf8(symbol).len() <= u64::MAX,
    ensures
        decoder.run(encoded_symbol(symbol) + rest) == decoder.name(symbol).run(rest),
{
    let name = encode_utf8(symbol);
    let length = name.len() as u64;
    let written = digits(length as nat);
    let bytes = encoded_symbol(symbol) + rest;
    let tail = seq![SYMBOL] + (name + rest);
    assert(bytes =~= written + tail);
    lemma_integer(length, tail);
    let count = written.len() - 1;
    assert(bytes.subrange(0, count + 1) =~= written);
    assert(bytes[count + 1] == SYMBOL);
    lemma_mask(SYMBOL);
    let after = bytes.skip(count + 2);
    assert(after =~= name + rest);
    assert(after.subrange(0, length as int) =~= name);
    assert(after.skip(length as int) =~= rest);
    vstd::utf8::encode_utf8_valid_utf8(symbol);
    vstd::utf8::encode_utf8_decode_utf8(symbol);
}

/// Reading the bytes of names puts the names behind the names read so far.
pub proof fn lemma_symbols(decoder: Decoder, symbols: Seq<Seq<char>>, rest: Seq<u8>)
    requires
        valid_symbols(symbols),
    ensures
        decoder.run(encoded_symbols(symbols) + rest) == (Decoder {
            symbols: decoder.symbols + symbols,
            ..decoder
        }).run(rest),
    decreases symbols.len(),
{
    if symbols.len() == 0 {
        assert(encoded_symbols(symbols) + rest =~= rest);
        assert(decoder.symbols + symbols =~= decoder.symbols);
    } else {
        let later = symbols.drop_first();
        let after = encoded_symbols(later) + rest;
        assert(encoded_symbols(symbols) + rest =~= encoded_symbol(symbols[0]) + after);
        lemma_symbol(decoder, symbols[0], after);
        assert forall|i: int| 0 <= i < later.len() implies encode_utf8(#[trigger] later[i]).len()
            <= u64::MAX by {
            assert(later[i] == symbols[i + 1]);
        }
        lemma_symbols(decoder.name(symbols[0]), later, rest);
        assert(decoder.symbols.push(symbols[0]) + later =~= decoder.symbols + symbols);
    }
}

/// Round trip: decoding the bytes of a program that can be written gives
/// the program, whatever instruction its sequences end with.
pub proof fn lemma_round_trip(program: ProgramView)
    requires
        valid_program(program),
    ensures
        decoded(encoded_program(program)) == Ok::<ProgramView, Error>(program),
{
    let empty = Seq::<u8>::empty();
    let start = Decoder::start();
    let named = Decoder { symbols: start.symbols + program.symbols, ..start };
    lemma_symbols(start, program.symbols, encoded_list(program.instructions));
    assert(named.symbols =~= program.symbols);
    lemma_list(named, program.instructions, empty);
    assert(encoded_list(program.instructions) + empty =~= encoded_list(program.instructions));
    assert(named.done + program.instructions =~= program.instructions);
}

} // verus!
