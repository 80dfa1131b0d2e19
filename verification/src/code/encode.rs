use super::format::{
    digits, encoded, encoded_list, encoded_program, encoded_symbol, encoded_symbols, numbered,
    operand_number, CALL, CLOSE, CONSTANT, GET, HALT, IF, INTEGER_BASE, LOCAL_BASE, NOP,
    RETURN_CALL, SET, SKIP, SYMBOL,
};
use super::instruction::{lemma_views, views, Instruction, Operand};
use super::program::{names, Program};
use vstd::prelude::*;
use vstd::string::StringSliceAdditionalSpecFns;

verus! {

/// Encodes a program in bytes: the names, then the instructions.
pub fn encode(program: &Program) -> (codes: Vec<u8>)
    ensures
        codes@ == encoded_program(program@),
{
    let mut codes = Vec::new();

    encode_symbols(&mut codes, program.symbols());
    encode_instructions(&mut codes, program.instructions());
    assert(codes@ =~= encoded_program(program@));
    codes
}

/// Writes the bytes of names behind the bytes written so far.
fn encode_symbols(codes: &mut Vec<u8>, symbols: &Vec<String>)
    ensures
        final(codes)@ == old(codes)@ + encoded_symbols(names(symbols@)),
{
    let mut index: usize = 0;
    let ghost all = names(symbols@);

    proof {
        assert(all.skip(0) =~= all);
        assert(codes@ + encoded_symbols(all) =~= old(codes)@ + encoded_symbols(all));
    }
    while index < symbols.len()
        invariant
            index <= symbols.len(),
            all == names(symbols@),
            codes@ + encoded_symbols(all.skip(index as int)) == old(codes)@ + encoded_symbols(all),
        decreases symbols.len() - index,
    {
        let ghost before = codes@;
        let ghost rest = all.skip(index as int);
        let name = symbols[index].as_str().as_bytes();

        proof {
            assert(rest[0] == symbols[index as int]@);
            assert(rest.drop_first() =~= all.skip(index + 1));
        }
        encode_numbered(codes, name.len() as u64, SYMBOL);
        let mut position: usize = 0;
        let ghost start = codes@;

        while position < name.len()
            invariant
                position <= name.len(),
                codes@ == start + name@.subrange(0, position as int),
            decreases name.len() - position,
        {
            codes.push(name[position]);
            position = position + 1;
            assert(codes@ =~= start + name@.subrange(0, position as int));
        }
        proof {
            assert(name@.subrange(0, position as int) =~= name@);
            assert(codes@ =~= before + encoded_symbol(rest[0]));
            assert(codes@ + encoded_symbols(all.skip(index + 1)) =~= before + encoded_symbols(
                rest,
            ));
        }
        index = index + 1;
    }
    proof {
        assert(all.skip(index as int) =~= Seq::empty());
        assert(codes@ + Seq::<u8>::empty() =~= codes@);
    }
}

/// Writes the bytes of instructions behind the bytes written so far, the
/// bytes of each instruction in the order of the instructions.
pub fn encode_instructions(codes: &mut Vec<u8>, instructions: &Vec<Instruction>)
    ensures
        final(codes)@ == old(codes)@ + encoded_list(views(instructions@)),
    decreases instructions,
{
    let mut index: usize = 0;
    let ghost all = views(instructions@);

    proof {
        lemma_views(instructions@);
        assert(all.subrange(0, 0) =~= Seq::empty());
        assert(codes@ =~= old(codes)@ + encoded_list(all.subrange(0, 0)));
    }
    while index < instructions.len()
        invariant
            index <= instructions.len(),
            all == views(instructions@),
            all.len() == instructions.len(),
            forall|i: int| 0 <= i < instructions.len() ==> #[trigger] all[i] == instructions[i]@,
            codes@ == old(codes)@ + encoded_list(all.subrange(0, index as int)),
        decreases instructions.len() - index,
    {
        let ghost before = codes@;
        let ghost front = all.subrange(0, index + 1);

        proof {
            assert(front.last() == all[index as int]);
            assert(front.drop_last() =~= all.subrange(0, index as int));
        }
        encode_instruction(codes, &instructions[index]);
        index = index + 1;
        proof {
            assert(codes@ =~= old(codes)@ + encoded_list(front));
        }
    }
    proof {
        assert(all.subrange(0, index as int) =~= all);
    }
}

/// Writes the bytes of an instruction behind the bytes written so far.
fn encode_instruction(codes: &mut Vec<u8>, instruction: &Instruction)
    ensures
        final(codes)@ == old(codes)@ + encoded(instruction@),
    decreases instruction,
{
    match instruction {
        Instruction::Constant(number) => {
            encode_numbered(codes, *number, CONSTANT);
        },
        Instruction::Get(operand) => {
            encode_operand(codes, *operand, GET);
        },
        Instruction::Store(operand) => {
            encode_operand(codes, *operand, SET);
        },
        Instruction::If(then) => {
            encode_instructions(codes, then);
            proof {
                lemma_views(then@);
            }
            encode_numbered(codes, then.len() as u64, IF);
            assert(codes@ =~= old(codes)@ + encoded(instruction@));
        },
        Instruction::Nop(number) => {
            encode_numbered(codes, *number, NOP);
        },
        Instruction::Apply(operand, tail) => {
            encode_operand(
                codes,
                *operand,
                if *tail {
                    RETURN_CALL
                } else {
                    CALL
                },
            );
        },
        Instruction::Close(arity, body) => {
            encode_instructions(codes, body);
            proof {
                lemma_views(body@);
            }
            encode_numbered(codes, *arity, CLOSE);
            encode_integer(codes, body.len() as u64);
            assert(codes@ =~= old(codes)@ + encoded(instruction@));
        },
        Instruction::Skip(count) => {
            encode_numbered(codes, *count, SKIP);
        },
        Instruction::Halt => {
            encode_numbered(codes, 0, HALT);
        },
    }
}

/// Writes the bytes of an instruction of an operand and an opcode: the
/// number of a global variable as it is, and the number of a local variable
/// negated, or the least negative number for the local variable zero.
pub fn encode_operand(codes: &mut Vec<u8>, operand: Operand, opcode: u8)
    ensures
        final(codes)@ == old(codes)@ + numbered(operand_number(operand), opcode),
{
    match operand {
        Operand::Global(number) => encode_numbered(codes, number, opcode),
        Operand::Local(number) => encode_numbered(
            codes,
            if number == 0 {
                LOCAL_BASE
            } else {
                u64::MAX - number + 1
            },
            opcode,
        ),
    }
}

/// Writes the bytes of an instruction of a number and an opcode.
fn encode_numbered(codes: &mut Vec<u8>, number: u64, opcode: u8)
    ensures
        final(codes)@ == old(codes)@ + numbered(number, opcode),
{
    encode_integer(codes, number);
    codes.push(opcode);
    assert(codes@ =~= old(codes)@ + numbered(number, opcode));
}

/// Writes the digits of a number behind the bytes written so far: one byte
/// for each digit to the base 128, the lowest first, with the sign bit set on
/// every digit but the last.
pub fn encode_integer(codes: &mut Vec<u8>, number: u64)
    ensures
        final(codes)@ == old(codes)@ + digits(number as nat),
{
    let mut rest = number;

    assert(codes@ + digits(rest as nat) =~= old(codes)@ + digits(number as nat));
    while rest >= INTEGER_BASE
        invariant
            codes@ + digits(rest as nat) == old(codes)@ + digits(number as nat),
        decreases rest,
    {
        let ghost before = codes@;

        codes.push((128 + rest % INTEGER_BASE) as u8);
        proof {
            assert(codes@ + digits((rest / 128) as nat) =~= before + digits(rest as nat));
        }
        rest = rest / INTEGER_BASE;
    }
    let ghost before = codes@;
    codes.push(rest as u8);
    assert(codes@ =~= before + digits(rest as nat));
}

} // verus!
