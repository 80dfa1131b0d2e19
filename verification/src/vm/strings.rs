//! Strings in a memory: a string is a list of the numbers of its bytes.

use super::cons::Cons;
use super::error::Error;
use super::memory::Memory;
use super::model::{lemma_wf_with_cell, MemoryView};
use super::number::Number;
use super::value::Value;
use vstd::prelude::*;

verus! {

impl MemoryView {
    /// The bytes of a string that a value stands for, read over at most
    /// `limit` cells.  The string ends at a reference to the cell of the empty
    /// list; a value on the way that is no reference, and a cell that holds no
    /// number of a byte, make it fail.
    pub open spec fn string(self, value: Value, limit: nat) -> Result<Seq<u8>, Error>
        decreases limit,
    {
        match value {
            Value::Number(_) => Err(Error::ConsExpected),
            Value::Cons(list) => if list.index == self.null.index {
                Ok(Seq::empty())
            } else if limit == 0 {
                Err(Error::ConsExpected)
            } else {
                match self.car(list) {
                    Value::Cons(_) => Err(Error::NumberExpected),
                    Value::Number(number) => if number.0 >= 256 {
                        Err(Error::NumberExpected)
                    } else {
                        match self.string(self.cdr(list), (limit - 1) as nat) {
                            Err(error) => Err(error),
                            Ok(rest) => Ok(seq![number.0 as u8] + rest),
                        }
                    },
                }
            },
        }
    }

    /// The memory with the cells of a string behind the cells in use, the
    /// cell of the last byte first.
    pub open spec fn with_string(self, bytes: Seq<u8>) -> MemoryView
        decreases bytes.len(),
    {
        if bytes.len() == 0 {
            self
        } else {
            let rest = self.with_string(bytes.drop_first());
            rest.with_cell(
                Value::Number(Number(bytes[0] as u64)),
                Value::Cons(self.string_head(bytes.drop_first())),
            )
        }
    }

    /// The reference to the string that `with_string` makes: the cell of the
    /// first byte, or the empty list.
    pub open spec fn string_head(self, bytes: Seq<u8>) -> Cons {
        if bytes.len() == 0 {
            self.null
        } else {
            Cons { index: (self.start + self.used + 2 * (bytes.len() - 1)) as usize, tag: 0 }
        }
    }
}

/// The cells of a string leave the bounds and the registers as they are and
/// take a cell for each byte.
pub proof fn lemma_with_string(memory: MemoryView, bytes: Seq<u8>)
    requires
        memory.wf(),
        memory.room(bytes.len()),
    ensures
        memory.with_string(bytes).wf(),
        memory.with_string(bytes).used == memory.used + 2 * bytes.len(),
        memory.with_string(bytes).size == memory.size,
        memory.with_string(bytes).start == memory.start,
        memory.with_string(bytes).null == memory.null,
        memory.with_string(bytes).no == memory.no,
        memory.with_string(bytes).yes == memory.yes,
        memory.with_string(bytes).stack == memory.stack,
        memory.with_string(bytes).code == memory.code,
        memory.with_string(bytes).allocated(memory.string_head(bytes).index as int),
        forall|i: int| memory.allocated(i) ==> #[trigger] memory.with_string(bytes).allocated(i),
    decreases bytes.len(),
{
    if bytes.len() > 0 {
        let rest = bytes.drop_first();
        lemma_with_string(memory, rest);
        let before = memory.with_string(rest);
        lemma_wf_with_cell(
            before,
            Value::Number(Number(bytes[0] as u64)),
            Value::Cons(memory.string_head(rest)),
        );
    }
}

/// The cells of a string leave the slots in use as they are.
pub proof fn lemma_with_string_keeps(memory: MemoryView, bytes: Seq<u8>)
    requires
        memory.wf(),
        memory.room(bytes.len()),
    ensures
        memory.with_string(bytes).heap.len() == memory.heap.len(),
        forall|s: int|
            memory.start <= s < memory.start + memory.used ==> #[trigger] memory.with_string(
                bytes,
            ).heap[s] == memory.heap[s],
    decreases bytes.len(),
{
    if bytes.len() > 0 {
        let rest = bytes.drop_first();
        lemma_with_string_keeps(memory, rest);
        lemma_with_string(memory, rest);
    }
}

impl Memory {
    /// Tells whether the active space has room for a number of cells.
    pub fn has_room(&self, cells: usize) -> (result: bool)
        requires
            self@.wf(),
        ensures
            result == self@.room(cells as nat),
    {
        cells <= (self.space_size() - self.allocation_index()) / 2
    }

    /// Reads the bytes of a string.  It looks at no more cells than are in
    /// use.
    pub fn bytes(&self, value: Value) -> (result: Result<Vec<u8>, Error>)
        requires
            self@.wf(),
            self@.valid(value),
        ensures
            match self@.string(value, (self@.used / 2) as nat) {
                Ok(bytes) => result is Ok && result->Ok_0@ == bytes,
                Err(error) => result is Err && result->Err_0 == error,
            },
    {
        let mut bytes: Vec<u8> = Vec::new();
        let mut current = value;
        let mut limit = self.allocation_index() / 2;
        let ghost all = self@.string(value, (self@.used / 2) as nat);

        loop
            invariant
                self@.wf(),
                self@.valid(current),
                all == self@.string(value, (self@.used / 2) as nat),
                all == match self@.string(current, limit as nat) {
                    Ok(rest) => Ok::<Seq<u8>, Error>(bytes@ + rest),
                    Err(error) => Err(error),
                },
            decreases limit,
        {
            let list = match current {
                Value::Cons(list) => list,
                Value::Number(_) => {
                    return Err(Error::ConsExpected);
                },
            };
            if list.index() == self.null().index() {
                assert(bytes@ + Seq::<u8>::empty() =~= bytes@);
                return Ok(bytes);
            }
            if limit == 0 {
                return Err(Error::ConsExpected);
            }
            let number = match self.car(list) {
                Value::Number(number) => number.to_u64(),
                Value::Cons(_) => {
                    return Err(Error::NumberExpected);
                },
            };
            if number >= 256 {
                return Err(Error::NumberExpected);
            }
            let ghost before = bytes@;

            bytes.push(number as u8);
            current = self.cdr(list);
            limit = limit - 1;
            proof {
                if let Ok(rest) = self@.string(current, limit as nat) {
                    assert(bytes@ + rest =~= before + (seq![number as u8] + rest));
                }
            }
        }
    }

    /// Makes a string of bytes and returns the reference to it.  The space
    /// must have room for a cell for each byte: nothing is collected.
    pub fn build_string(&mut self, bytes: &[u8]) -> (result: Cons)
        requires
            old(self)@.wf(),
            old(self)@.room(bytes@.len()),
        ensures
            final(self)@.wf(),
            final(self)@ == old(self)@.with_string(bytes@),
            result == old(self)@.string_head(bytes@),
            final(self)@.allocated(result.index as int),
    {
        let mut head = self.null();
        let mut index = bytes.len();
        let ghost start = self@;

        proof {
            assert(bytes@.skip(index as int) =~= Seq::<u8>::empty());
        }
        while index > 0
            invariant
                index <= bytes.len(),
                start == old(self)@,
                start.wf(),
                start.room(bytes@.len()),
                self@ == start.with_string(bytes@.skip(index as int)),
                head == start.string_head(bytes@.skip(index as int)),
            decreases index,
        {
            let ghost rest = bytes@.skip(index as int);

            proof {
                lemma_with_string(start, rest);
                assert(bytes@.skip(index - 1).drop_first() =~= rest);
            }
            index = index - 1;
            head = match self.allocate(
                Value::Number(Number::new(bytes[index] as u64)),
                Value::Cons(head),
            ) {
                Ok(cell) => cell,
                Err(_) => head,
            };
        }
        proof {
            assert(bytes@.skip(0) =~= bytes@);
            lemma_with_string(start, bytes@);
        }
        head
    }
}

impl MemoryView {
    /// The memory with the cells of a list of numbers behind the cells in use, the
    /// cell of the last number first.
    pub open spec fn with_numbers(self, numbers: Seq<u64>) -> MemoryView
        decreases numbers.len(),
    {
        if numbers.len() == 0 {
            self
        } else {
            let rest = self.with_numbers(numbers.drop_first());
            rest.with_cell(
                Value::Number(Number(numbers[0])),
                Value::Cons(self.numbers_head(numbers.drop_first())),
            )
        }
    }

    /// The reference to the list that `with_numbers` makes: the cell of the
    /// first number, or the empty list.
    pub open spec fn numbers_head(self, numbers: Seq<u64>) -> Cons {
        if numbers.len() == 0 {
            self.null
        } else {
            Cons { index: (self.start + self.used + 2 * (numbers.len() - 1)) as usize, tag: 0 }
        }
    }
}

/// The cells of a list of numbers leave the bounds and the registers as they are and
/// take a cell for each number.
pub proof fn lemma_with_numbers(memory: MemoryView, numbers: Seq<u64>)
    requires
        memory.wf(),
        memory.room(numbers.len()),
    ensures
        memory.with_numbers(numbers).wf(),
        memory.with_numbers(numbers).used == memory.used + 2 * numbers.len(),
        memory.with_numbers(numbers).size == memory.size,
        memory.with_numbers(numbers).start == memory.start,
        memory.with_numbers(numbers).null == memory.null,
        memory.with_numbers(numbers).no == memory.no,
        memory.with_numbers(numbers).yes == memory.yes,
        memory.with_numbers(numbers).stack == memory.stack,
        memory.with_numbers(numbers).code == memory.code,
        memory.with_numbers(numbers).allocated(memory.numbers_head(numbers).index as int),
        forall|i: int| memory.allocated(i) ==> #[trigger] memory.with_numbers(numbers).allocated(i),
    decreases numbers.len(),
{
    if numbers.len() > 0 {
        let rest = numbers.drop_first();
        lemma_with_numbers(memory, rest);
        let before = memory.with_numbers(rest);
        lemma_wf_with_cell(
            before,
            Value::Number(Number(numbers[0])),
            Value::Cons(memory.numbers_head(rest)),
        );
    }
}

/// The cells of a list of numbers leave the slots in use as they are.
pub proof fn lemma_with_numbers_keeps(memory: MemoryView, numbers: Seq<u64>)
    requires
        memory.wf(),
        memory.room(numbers.len()),
    ensures
        memory.with_numbers(numbers).heap.len() == memory.heap.len(),
        forall|s: int|
            memory.start <= s < memory.start + memory.used ==> #[trigger] memory.with_numbers(
                numbers,
            ).heap[s] == memory.heap[s],
    decreases numbers.len(),
{
    if numbers.len() > 0 {
        let rest = numbers.drop_first();
        lemma_with_numbers_keeps(memory, rest);
        lemma_with_numbers(memory, rest);
    }
}

impl Memory {
    /// Makes a string of numbers and returns the reference to it.  The space
    /// must have room for a cell for each number: nothing is collected.
    pub fn build_numbers(&mut self, numbers: &[u64]) -> (result: Cons)
        requires
            old(self)@.wf(),
            old(self)@.room(numbers@.len()),
        ensures
            final(self)@.wf(),
            final(self)@ == old(self)@.with_numbers(numbers@),
            result == old(self)@.numbers_head(numbers@),
            final(self)@.allocated(result.index as int),
    {
        let mut head = self.null();
        let mut index = numbers.len();
        let ghost start = self@;

        proof {
            assert(numbers@.skip(index as int) =~= Seq::<u64>::empty());
        }
        while index > 0
            invariant
                index <= numbers.len(),
                start == old(self)@,
                start.wf(),
                start.room(numbers@.len()),
                self@ == start.with_numbers(numbers@.skip(index as int)),
                head == start.numbers_head(numbers@.skip(index as int)),
            decreases index,
        {
            let ghost rest = numbers@.skip(index as int);

            proof {
                lemma_with_numbers(start, rest);
                assert(numbers@.skip(index - 1).drop_first() =~= rest);
            }
            index = index - 1;
            head = match self.allocate(
                Value::Number(Number::new(numbers[index])),
                Value::Cons(head),
            ) {
                Ok(cell) => cell,
                Err(_) => head,
            };
        }
        proof {
            assert(numbers@.skip(0) =~= numbers@);
            lemma_with_numbers(start, numbers@);
        }
        head
    }
}

/// Reading a string that was made gives its bytes.
pub proof fn lemma_string_round_trip(memory: MemoryView, bytes: Seq<u8>, limit: nat)
    requires
        memory.wf(),
        memory.room(bytes.len()),
        limit >= bytes.len(),
    ensures
        memory.with_string(bytes).string(Value::Cons(memory.string_head(bytes)), limit) == Ok::<
            Seq<u8>,
            Error,
        >(bytes),
    decreases bytes.len(),
{
    let new = memory.with_string(bytes);
    lemma_with_string(memory, bytes);
    if bytes.len() > 0 {
        let rest = bytes.drop_first();
        let before = memory.with_string(rest);
        lemma_with_string(memory, rest);
        lemma_string_round_trip(memory, rest, (limit - 1) as nat);
        lemma_string_kept(
            before,
            Value::Number(Number(bytes[0] as u64)),
            Value::Cons(memory.string_head(rest)),
            Value::Cons(memory.string_head(rest)),
            (limit - 1) as nat,
        );
        assert(memory.allocated(memory.null.index as int));
        let head = memory.string_head(bytes);
        assert(head == before.next());
        assert(new == before.with_cell(
            Value::Number(Number(bytes[0] as u64)),
            Value::Cons(memory.string_head(rest)),
        ));
        assert(head.index != new.null.index);
        assert(new.car(head) == Value::Number(Number(bytes[0] as u64)));
        assert(new.cdr(head) == Value::Cons(memory.string_head(rest)));
        assert(new.string(new.cdr(head), (limit - 1) as nat) == Ok::<Seq<u8>, Error>(rest));
        assert(seq![bytes[0]] + rest =~= bytes);
    } else {
        assert(bytes =~= Seq::<u8>::empty());
    }
}

/// A cell more behind the cells in use leaves the strings as they are.
pub proof fn lemma_string_kept(memory: MemoryView, car: Value, cdr: Value, value: Value, limit: nat)
    requires
        memory.wf(),
        !memory.full(),
        memory.valid(value),
    ensures
        memory.with_cell(car, cdr).string(value, limit) == memory.string(value, limit),
    decreases limit,
{
    if let Value::Cons(list) = value {
        if list.index != memory.null.index && limit > 0 {
            super::model::lemma_valid_slots(memory, list.index as int);
            lemma_string_kept(memory, car, cdr, memory.cdr(list), (limit - 1) as nat);
        }
    }
}

} // verus!
