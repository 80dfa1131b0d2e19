use super::cons::Cons;
use super::number::Number;
use vstd::prelude::*;

verus! {

/// A value: either an immediate number or a tagged reference to a cons cell.
#[derive(Clone, Copy, Debug, PartialEq, Eq, Structural)]
pub enum Value {
    Number(Number),
    Cons(Cons),
}

impl Value {
    /// Tells whether the value is a reference to a cons cell.
    pub fn is_cons(self) -> (result: bool)
        ensures
            result == (self is Cons),
    {
        match self {
            Value::Cons(_) => true,
            Value::Number(_) => false,
        }
    }

    /// Tells whether the value is a number.
    pub fn is_number(self) -> (result: bool)
        ensures
            result == (self is Number),
    {
        match self {
            Value::Cons(_) => false,
            Value::Number(_) => true,
        }
    }

    /// Returns the reference, if the value is one.
    pub fn to_cons(self) -> (result: Option<Cons>)
        ensures
            result == self.as_cons(),
    {
        match self {
            Value::Cons(cons) => Some(cons),
            Value::Number(_) => None,
        }
    }

    /// Returns the number, if the value is one.
    pub fn to_number(self) -> (result: Option<Number>)
        ensures
            result == self.as_number(),
    {
        match self {
            Value::Cons(_) => None,
            Value::Number(number) => Some(number),
        }
    }

    /// Returns the same value with the tag replaced, if it is a reference; a
    /// number carries no tag and is returned as it is.
    pub fn set_tag(self, tag: u8) -> (result: Self)
        ensures
            result == self.with_tag(tag),
    {
        match self {
            Value::Cons(cons) => Value::Cons(cons.set_tag(tag)),
            Value::Number(_) => self,
        }
    }

    /// The text of the value.
    pub open spec fn text(self) -> Seq<char> {
        match self {
            Value::Cons(cons) => cons.text(),
            Value::Number(number) => number.text(),
        }
    }

    /// Writes the text of the value at the end of a string.
    pub fn write(&self, string: &mut String)
        ensures
            final(string)@ == old(string)@ + self.text(),
    {
        match self {
            Value::Cons(cons) => cons.write(string),
            Value::Number(number) => number.write(string),
        }
    }

    /// Returns the text of the value.
    pub fn to_string(&self) -> (result: String)
        ensures
            result@ == self.text(),
    {
        let mut result = String::new();

        self.write(&mut result);
        assert(result@ =~= self.text());
        result
    }

    pub open spec fn as_cons(self) -> Option<Cons> {
        match self {
            Value::Cons(cons) => Some(cons),
            Value::Number(_) => None,
        }
    }

    pub open spec fn as_number(self) -> Option<Number> {
        match self {
            Value::Cons(_) => None,
            Value::Number(number) => Some(number),
        }
    }

    pub open spec fn with_tag(self, tag: u8) -> Self {
        match self {
            Value::Cons(cons) => Value::Cons(cons.with_tag(tag)),
            Value::Number(_) => self,
        }
    }
}

impl Default for Value {
    fn default() -> (result: Self)
        ensures
            result == Value::Number(Number(0)),
    {
        Value::Number(Number(0))
    }
}

impl From<Number> for Value {
    fn from(number: Number) -> (result: Self) {
        Value::Number(number)
    }
}

impl vstd::std_specs::convert::FromSpecImpl<Number> for Value {
    open spec fn obeys_from_spec() -> bool {
        true
    }

    open spec fn from_spec(number: Number) -> Self {
        Value::Number(number)
    }
}

impl From<Cons> for Value {
    fn from(cons: Cons) -> (result: Self) {
        Value::Cons(cons)
    }
}

impl vstd::std_specs::convert::FromSpecImpl<Cons> for Value {
    open spec fn obeys_from_spec() -> bool {
        true
    }

    open spec fn from_spec(cons: Cons) -> Self {
        Value::Cons(cons)
    }
}

} // verus!
