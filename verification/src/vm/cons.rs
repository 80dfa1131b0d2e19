use crate::text::{decimal, push_decimal};
use vstd::prelude::*;

verus! {

/// A reference to a cons cell: the index of its first slot in the heap and a
/// tag that rides on the reference.  The tag is metadata of the reference, not
/// of the cell, and two references are equal when index and tag are equal.
#[derive(Clone, Copy, Debug, PartialEq, Eq, Structural)]
pub struct Cons {
    pub index: usize,
    pub tag: u8,
}

impl Cons {
    /// Creates an untagged reference to the cell at `index`.
    pub fn new(index: usize) -> (result: Self)
        ensures
            result == (Cons { index, tag: 0 }),
    {
        Cons { index, tag: 0 }
    }

    /// Returns the index of the first slot of the cell.
    pub fn index(self) -> (result: usize)
        ensures
            result == self.index,
    {
        self.index
    }

    /// Returns the tag.
    pub fn tag(self) -> (result: u8)
        ensures
            result == self.tag,
    {
        self.tag
    }

    /// Returns a reference to the same cell under another tag.
    pub fn set_tag(self, tag: u8) -> (result: Self)
        ensures
            result == self.with_tag(tag),
    {
        Cons { index: self.index, tag }
    }

    /// The text of the reference: the letter `c` and the index in decimal,
    /// and behind a colon the tag, where it is not zero.
    pub open spec fn text(self) -> Seq<char> {
        "c"@ + decimal(self.index as nat) + if self.tag == 0 {
            Seq::empty()
        } else {
            ":"@ + decimal(self.tag as nat)
        }
    }

    /// Writes the text of the reference at the end of a string.
    pub fn write(&self, string: &mut String)
        ensures
            final(string)@ == old(string)@ + self.text(),
    {
        string.push_str("c");
        push_decimal(string, self.index as u64);
        if self.tag != 0 {
            string.push_str(":");
            push_decimal(string, self.tag as u64);
        }
        assert(string@ =~= old(string)@ + self.text());
    }

    /// Returns the text of the reference.
    pub fn to_string(&self) -> (result: String)
        ensures
            result@ == self.text(),
    {
        let mut result = String::new();

        self.write(&mut result);
        assert(result@ =~= self.text());
        result
    }

    /// The same cell under another tag.
    pub open spec fn with_tag(self, tag: u8) -> Self {
        Cons { index: self.index, tag }
    }
}

} // verus!
