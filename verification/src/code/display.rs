use super::instruction::{lemma_views, views, Instruction, InstructionView, Operand};
use crate::text::{decimal, indented, push_decimal, push_indent};
use vstd::prelude::*;

verus! {

/// The text of an operand.
pub open spec fn operand_text(operand: Operand) -> Seq<char> {
    match operand {
        Operand::Global(number) => "global "@ + decimal(number as nat),
        Operand::Local(number) => "local "@ + decimal(number as nat),
    }
}

/// The level of indent under a level: one deeper, up to the greatest level
/// that can be counted.
pub open spec fn deeper(indent: nat) -> nat {
    if indent < usize::MAX {
        indent + 1
    } else {
        indent
    }
}

/// The text of an instruction at a level of indent: a dash, the name, the
/// operand, and the instructions of a branch or a body one level deeper.
pub open spec fn displayed(instruction: InstructionView, indent: nat) -> Seq<char>
    decreases instruction,
{
    "- "@ + match instruction {
        InstructionView::Constant(number) => "constant "@ + decimal(number as nat),
        InstructionView::Get(operand) => "get "@ + operand_text(operand),
        InstructionView::Store(operand) => "set "@ + operand_text(operand),
        InstructionView::If(then) => "if"@ + displayed_list(then, deeper(indent)),
        InstructionView::Nop(number) => "nop "@ + decimal(number as nat),
        InstructionView::Apply(operand, tail) => if tail {
            "return call "@ + operand_text(operand)
        } else {
            "call "@ + operand_text(operand)
        },
        InstructionView::Close(arity, body) => "close "@ + decimal(arity as nat) + displayed_list(
            body,
            deeper(indent),
        ),
        InstructionView::Skip(count) => "skip "@ + decimal(count as nat),
        InstructionView::Halt => "halt"@,
    }
}

/// The text of instructions at a level of indent: each on a line of its
/// own, behind two spaces for each level.
pub open spec fn displayed_list(instructions: Seq<InstructionView>, indent: nat) -> Seq<char>
    decreases instructions,
{
    if instructions.len() == 0 {
        Seq::empty()
    } else {
        displayed_list(instructions.drop_last(), indent) + "\n"@ + indented(indent) + displayed(
            instructions.last(),
            indent,
        )
    }
}

impl Instruction {
    /// Returns the text of instructions.
    pub fn display_slice(instructions: &Vec<Instruction>) -> (result: String)
        ensures
            result@ == displayed_list(views(instructions@), 0),
    {
        let mut result = String::new();

        display_list(&mut result, instructions, 0);
        assert(result@ =~= displayed_list(views(instructions@), 0));
        result
    }
}

/// Writes the text of an operand.
fn display_operand(string: &mut String, operand: Operand)
    ensures
        final(string)@ == old(string)@ + operand_text(operand),
{
    match operand {
        Operand::Global(number) => {
            string.push_str("global ");
            push_decimal(string, number);
        },
        Operand::Local(number) => {
            string.push_str("local ");
            push_decimal(string, number);
        },
    }
    assert(string@ =~= old(string)@ + operand_text(operand));
}

/// Writes the text of an instruction.
fn display_instruction(string: &mut String, instruction: &Instruction, indent: usize)
    ensures
        final(string)@ == old(string)@ + displayed(instruction@, indent as nat),
    decreases instruction,
{
    string.push_str("- ");
    let ghost start = string@;

    match instruction {
        Instruction::Constant(number) => {
            string.push_str("constant ");
            push_decimal(string, *number);
            assert(string@ =~= start + ("constant "@ + decimal(*number as nat)));
        },
        Instruction::Get(operand) => {
            string.push_str("get ");
            display_operand(string, *operand);
            assert(string@ =~= start + ("get "@ + operand_text(*operand)));
        },
        Instruction::Store(operand) => {
            string.push_str("set ");
            display_operand(string, *operand);
            assert(string@ =~= start + ("set "@ + operand_text(*operand)));
        },
        Instruction::If(then) => {
            string.push_str("if");
            display_list(string, then, next_indent(indent));
            assert(string@ =~= start + ("if"@ + displayed_list(
                views(then@),
                deeper(indent as nat),
            )));
        },
        Instruction::Nop(number) => {
            string.push_str("nop ");
            push_decimal(string, *number);
            assert(string@ =~= start + ("nop "@ + decimal(*number as nat)));
        },
        Instruction::Apply(operand, tail) => {
            if *tail {
                string.push_str("return call ");
                display_operand(string, *operand);
                assert(string@ =~= start + ("return call "@ + operand_text(*operand)));
            } else {
                string.push_str("call ");
                display_operand(string, *operand);
                assert(string@ =~= start + ("call "@ + operand_text(*operand)));
            }
        },
        Instruction::Close(arity, body) => {
            string.push_str("close ");
            push_decimal(string, *arity);
            display_list(string, body, next_indent(indent));
            assert(string@ =~= start + ("close "@ + decimal(*arity as nat) + displayed_list(
                views(body@),
                deeper(indent as nat),
            )));
        },
        Instruction::Skip(count) => {
            string.push_str("skip ");
            push_decimal(string, *count);
            assert(string@ =~= start + ("skip "@ + decimal(*count as nat)));
        },
        Instruction::Halt => {
            string.push_str("halt");
        },
    }
    assert(string@ =~= old(string)@ + displayed(instruction@, indent as nat));
}

/// Returns the level of indent under a level.
fn next_indent(indent: usize) -> (result: usize)
    ensures
        result == deeper(indent as nat),
{
    if indent < usize::MAX {
        indent + 1
    } else {
        indent
    }
}

/// Writes the text of instructions.
fn display_list(string: &mut String, instructions: &Vec<Instruction>, indent: usize)
    ensures
        final(string)@ == old(string)@ + displayed_list(views(instructions@), indent as nat),
    decreases instructions,
{
    let mut index: usize = 0;
    let ghost all = views(instructions@);

    proof {
        lemma_views(instructions@);
        assert(all.subrange(0, 0) =~= Seq::empty());
        assert(string@ =~= old(string)@ + displayed_list(all.subrange(0, 0), indent as nat));
    }
    while index < instructions.len()
        invariant
            index <= instructions.len(),
            all == views(instructions@),
            all.len() == instructions.len(),
            forall|i: int| 0 <= i < instructions.len() ==> #[trigger] all[i] == instructions[i]@,
            string@ == old(string)@ + displayed_list(all.subrange(0, index as int), indent as nat),
        decreases instructions.len() - index,
    {
        let ghost before = string@;
        let ghost front = all.subrange(0, index + 1);

        proof {
            assert(front.last() == all[index as int]);
            assert(front.drop_last() =~= all.subrange(0, index as int));
        }
        string.push_str("\n");
        push_indent(string, indent);
        display_instruction(string, &instructions[index], indent);
        index = index + 1;
        proof {
            assert(string@ =~= old(string)@ + displayed_list(front, indent as nat));
        }
    }
    proof {
        assert(all.subrange(0, index as int) =~= all);
    }
}

} // verus!
