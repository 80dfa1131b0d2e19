use super::instruction::{views, Instruction, InstructionView};
use vstd::prelude::*;

verus! {

/// A program: the names of its global variables and its instructions.
#[derive(Debug)]
pub struct Program {
    symbols: Vec<String>,
    instructions: Vec<Instruction>,
}

/// The mathematical model of a program.
pub struct ProgramView {
    pub symbols: Seq<Seq<char>>,
    pub instructions: Seq<InstructionView>,
}

/// The names as sequences of characters.
pub open spec fn names(symbols: Seq<String>) -> Seq<Seq<char>> {
    Seq::new(symbols.len(), |i: int| symbols[i]@)
}

impl View for Program {
    type V = ProgramView;

    closed spec fn view(&self) -> ProgramView {
        ProgramView { symbols: names(self.symbols@), instructions: views(self.instructions@) }
    }
}

impl Program {
    /// Creates a program.
    pub fn new(symbols: Vec<String>, instructions: Vec<Instruction>) -> (result: Self)
        ensures
            result@ == (ProgramView {
                symbols: names(symbols@),
                instructions: views(instructions@),
            }),
    {
        Program { symbols, instructions }
    }

    /// Returns the names of the global variables.
    pub fn symbols(&self) -> (result: &Vec<String>)
        ensures
            names(result@) == self@.symbols,
    {
        &self.symbols
    }

    /// Returns the instructions.
    pub fn instructions(&self) -> (result: &Vec<Instruction>)
        ensures
            views(result@) == self@.instructions,
    {
        &self.instructions
    }
}

} // verus!
