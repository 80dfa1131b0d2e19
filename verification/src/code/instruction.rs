use vstd::prelude::*;

verus! {

/// The operand of an instruction that names a variable.
#[derive(Clone, Copy, Debug, PartialEq, Eq, Structural)]
pub enum Operand {
    /// A global variable, by its number.
    Global(u64),
    /// A local variable, by the number of cells between it and the top of
    /// the stack.
    Local(u64),
}

/// An instruction.
#[derive(Debug)]
pub enum Instruction {
    /// Pushes a number.
    Constant(u64),
    /// Pushes the value of a variable.
    Get(Operand),
    /// Pops a value into a variable.
    Store(Operand),
    /// Pops a value and runs the instructions of the branch where the value
    /// is true, and else the instructions that follow.
    If(Vec<Instruction>),
    /// Does nothing.
    Nop(u64),
    /// Applies the procedure in a variable, in a tail call or not.
    Apply(Operand, bool),
    /// Pushes the code of a procedure: the number of its parameters and its
    /// instructions.
    Close(u64, Vec<Instruction>),
    /// Jumps over a number of the instructions that follow the branch that
    /// it ends.
    Skip(u64),
    /// Ends the run.
    Halt,
}

/// The mathematical model of an instruction.
pub enum InstructionView {
    Constant(u64),
    Get(Operand),
    Store(Operand),
    If(Seq<InstructionView>),
    Nop(u64),
    Apply(Operand, bool),
    Close(u64, Seq<InstructionView>),
    Skip(u64),
    Halt,
}

/// The models of the instructions of a sequence.
pub open spec fn views(instructions: Seq<Instruction>) -> Seq<InstructionView>
    decreases instructions,
{
    if instructions.len() == 0 {
        Seq::empty()
    } else {
        views(instructions.drop_last()).push(instructions.last()@)
    }
}

impl View for Instruction {
    type V = InstructionView;

    open spec fn view(&self) -> InstructionView
        decreases self,
    {
        match self {
            Instruction::Constant(number) => InstructionView::Constant(*number),
            Instruction::Get(operand) => InstructionView::Get(*operand),
            Instruction::Store(operand) => InstructionView::Store(*operand),
            Instruction::If(then) => InstructionView::If(views(then@)),
            Instruction::Nop(number) => InstructionView::Nop(*number),
            Instruction::Apply(operand, tail) => InstructionView::Apply(*operand, *tail),
            Instruction::Close(arity, body) => InstructionView::Close(*arity, views(body@)),
            Instruction::Skip(count) => InstructionView::Skip(*count),
            Instruction::Halt => InstructionView::Halt,
        }
    }
}

/// The models of the instructions of a sequence are as many as the
/// instructions, each the model of the instruction in its place.
pub proof fn lemma_views(instructions: Seq<Instruction>)
    ensures
        views(instructions).len() == instructions.len(),
        forall|i: int| 0 <= i < instructions.len() ==> #[trigger] views(instructions)[i] == instructions[i]@,
    decreases instructions.len(),
{
    if instructions.len() > 0 {
        let front = instructions.drop_last();
        lemma_views(front);
        assert(views(instructions) == views(front).push(instructions.last()@));
        assert forall|i: int| 0 <= i < instructions.len() implies #[trigger] views(
            instructions,
        )[i] == instructions[i]@ by {
            if i < front.len() {
                assert(views(front)[i] == front[i]@);
            }
        }
    } else {
        assert(views(instructions) == Seq::<InstructionView>::empty());
    }
}

/// The models of a sequence with one more instruction at its end.
pub proof fn lemma_views_push(instructions: Seq<Instruction>, instruction: Instruction)
    ensures
        views(instructions.push(instruction)) == views(instructions).push(instruction@),
{
    lemma_views(instructions);
    lemma_views(instructions.push(instruction));
    assert(views(instructions.push(instruction)) =~= views(instructions).push(instruction@));
}

/// The models of a sequence without its last instruction.
pub proof fn lemma_views_drop_last(instructions: Seq<Instruction>)
    requires
        instructions.len() > 0,
    ensures
        views(instructions.drop_last()) == views(instructions).drop_last(),
        views(instructions).last() == instructions.last()@,
{
    lemma_views(instructions);
    lemma_views(instructions.drop_last());
    assert(views(instructions.drop_last()) =~= views(instructions).drop_last());
}

} // verus!
