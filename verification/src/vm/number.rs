use crate::text::{decimal, push_decimal};
use vstd::prelude::*;

verus! {

/// A number: an immediate value with a 64-bit unsigned payload.
#[derive(Clone, Copy, Debug, PartialEq, Eq, Structural)]
pub struct Number(pub u64);

impl Number {
    /// Creates a number from its payload.
    pub fn new(number: u64) -> (result: Self)
        ensures
            result == Number(number),
            result.0 == number,
    {
        Number(number)
    }

    /// Returns the payload.
    pub fn to_u64(self) -> (result: u64)
        ensures
            result == self.0,
    {
        self.0
    }

    /// The text of the number: the letter `n` and the payload in decimal.
    pub open spec fn text(self) -> Seq<char> {
        "n"@ + decimal(self.0 as nat)
    }

    /// Writes the text of the number at the end of a string.
    pub fn write(&self, string: &mut String)
        ensures
            final(string)@ == old(string)@ + self.text(),
    {
        string.push_str("n");
        push_decimal(string, self.0);
        assert(string@ =~= old(string)@ + self.text());
    }

    /// Returns the text of the number.
    pub fn to_string(&self) -> (result: String)
        ensures
            result@ == self.text(),
    {
        let mut result = String::new();

        self.write(&mut result);
        assert(result@ =~= self.text());
        result
    }
}

impl Default for Number {
    fn default() -> (result: Self)
        ensures
            result == Number(0),
    {
        Number(0)
    }
}

} // verus!
