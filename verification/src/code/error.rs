use vstd::prelude::*;

verus! {

/// An error of the decoder.
#[derive(Clone, Copy, Debug, PartialEq, Eq, Structural)]
pub enum Error {
    /// The input ends in the middle of an instruction, or before a branch or
    /// a body was closed.
    EndOfInput,
    /// An instruction with an unknown opcode.
    IllegalInstruction,
    /// The code of a procedure without the instructions of its body.
    MissingClosureBody,
    /// An instruction without the number that it needs.
    MissingInteger,
    /// An instruction without the operand that it needs.
    MissingOperand,
    /// A branch without the instructions that follow it.
    MissingElseBranch,
    /// A name that is no text in UTF-8.
    Utf8,
}

impl Error {
    /// Describes the error in words.
    pub fn to_string(&self) -> (result: String)
        ensures
            result@ == self.text(),
    {
        match self {
            Error::EndOfInput => "unexpected end of input".to_string(),
            Error::IllegalInstruction => "illegal instruction".to_string(),
            Error::MissingClosureBody => "missing closure body".to_string(),
            Error::MissingInteger => "missing integer".to_string(),
            Error::MissingOperand => "missing operand".to_string(),
            Error::MissingElseBranch => "missing else branch".to_string(),
            Error::Utf8 => "invalid utf-8 sequence".to_string(),
        }
    }

    /// The words that describe the error.
    pub open spec fn text(&self) -> Seq<char> {
        match self {
            Error::EndOfInput => "unexpected end of input"@,
            Error::IllegalInstruction => "illegal instruction"@,
            Error::MissingClosureBody => "missing closure body"@,
            Error::MissingInteger => "missing integer"@,
            Error::MissingOperand => "missing operand"@,
            Error::MissingElseBranch => "missing else branch"@,
            Error::Utf8 => "invalid utf-8 sequence"@,
        }
    }
}

} // verus!
