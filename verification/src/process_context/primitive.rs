//! The primitives of the context of a process.
//!
//! The command line is given as a list of strings, and the environment as a
//! list of cells of two strings, a name and a value.  A primitive makes room
//! for all the cells of its list and for the cell that pushes it, so that
//! nothing is collected while the list is made.

use super::context::ProcessContext;
use crate::vm::cons::Cons;
use crate::vm::engine::PrimitiveSet;
use crate::vm::error::Error;
use crate::vm::memory::Memory;
use crate::vm::model::{lemma_wf_with_cell, MemoryView};
use crate::vm::strings::lemma_with_string;
use crate::vm::value::Value;
use vstd::prelude::*;

verus! {

/// A primitive of the context of a process.
#[derive(Clone, Copy, Debug, PartialEq, Eq, Structural)]
pub enum Primitive {
    /// The command line.
    CommandLine,
    /// The variables of the environment.
    EnvironmentVariables,
}

/// The number of the primitive that gives the command line.
pub const COMMAND_LINE: u64 = 0;

/// The number of the primitive that gives the environment.
pub const ENVIRONMENT_VARIABLES: u64 = 1;

impl Primitive {
    /// Returns the primitive of a number.
    pub fn from_number(number: u64) -> (result: Option<Primitive>)
        ensures
            result == if number == COMMAND_LINE {
                Some(Primitive::CommandLine)
            } else if number == ENVIRONMENT_VARIABLES {
                Some(Primitive::EnvironmentVariables)
            } else {
                None
            },
    {
        if number == COMMAND_LINE {
            Some(Primitive::CommandLine)
        } else if number == ENVIRONMENT_VARIABLES {
            Some(Primitive::EnvironmentVariables)
        } else {
            None
        }
    }
}

/// The strings as models of byte vectors.
pub open spec fn strings(items: Seq<Vec<u8>>) -> Seq<Seq<u8>> {
    Seq::new(items.len(), |i: int| items[i]@)
}

/// The names and the values of variables, one after the other.
pub open spec fn flattened(variables: Seq<(Vec<u8>, Vec<u8>)>) -> Seq<Seq<u8>> {
    Seq::new(
        2 * variables.len(),
        |i: int|
            if i % 2 == 0 {
                variables[i / 2].0@
            } else {
                variables[i / 2].1@
            },
    )
}

/// The number of cells of a list of strings: a cell for each byte and a
/// cell for each string.
pub open spec fn cells(items: Seq<Seq<u8>>) -> nat
    decreases items.len(),
{
    if items.len() == 0 {
        0
    } else {
        items[0].len() + 1 + cells(items.drop_first())
    }
}

impl MemoryView {
    /// The memory with a string and the cell of a list that holds it in
    /// front of a list, and the reference to that cell.
    pub open spec fn with_item(self, item: Seq<u8>, tail: Cons) -> (MemoryView, Cons) {
        let string = self.with_string(item);
        (
            string.with_cell(Value::Cons(self.string_head(item)), Value::Cons(tail)),
            string.next(),
        )
    }

    /// The memory with two strings, a cell of the two and the cell of a list
    /// that holds it in front of a list, and the reference to that cell.
    pub open spec fn with_pair(self, name: Seq<u8>, value: Seq<u8>, tail: Cons) -> (
        MemoryView,
        Cons,
    ) {
        let second = self.with_string(value);
        let first = second.with_string(name);
        let pair = first.with_cell(
            Value::Cons(second.string_head(name)),
            Value::Cons(self.string_head(value)),
        );
        (pair.with_cell(Value::Cons(first.next()), Value::Cons(tail)), pair.next())
    }

    /// The memory with the cells of a list of strings behind the cells in
    /// use, the cells of the last string first, and the reference to the list.
    /// Where the strings are paired, a cell of the list holds a cell of two
    /// strings, and else a string.
    pub open spec fn with_strings(self, items: Seq<Seq<u8>>, paired: bool) -> (MemoryView, Cons)
        decreases items.len(),
    {
        if items.len() == 0 || (paired && items.len() == 1) {
            (self, self.null)
        } else if paired {
            let (rest, tail) = self.with_strings(items.skip(2), paired);
            rest.with_pair(items[0], items[1], tail)
        } else {
            let (rest, tail) = self.with_strings(items.drop_first(), paired);
            rest.with_item(items[0], tail)
        }
    }
}

/// The cells of a list of two strings and more.
pub proof fn lemma_cells_two(items: Seq<Seq<u8>>)
    requires
        items.len() >= 2,
    ensures
        cells(items) == items[0].len() + 1 + items[1].len() + 1 + cells(items.skip(2)),
{
    let later = items.drop_first();
    assert(later[0] == items[1]);
    assert(later.drop_first() =~= items.skip(2));
    assert(cells(items) == items[0].len() + 1 + cells(later));
    assert(cells(later) == later[0].len() + 1 + cells(later.drop_first()));
}

/// A string and its cell of a list leave the bounds and the registers as
/// they are and take a cell for each byte and one more.
pub proof fn lemma_with_item(memory: MemoryView, item: Seq<u8>, tail: Cons)
    requires
        memory.wf(),
        memory.room(item.len() + 1),
        memory.allocated(tail.index as int),
    ensures
        memory.with_item(item, tail).0.wf(),
        memory.with_item(item, tail).0.used == memory.used + 2 * (item.len() + 1),
        memory.with_item(item, tail).0.size == memory.size,
        memory.with_item(item, tail).0.start == memory.start,
        memory.with_item(item, tail).0.null == memory.null,
        memory.with_item(item, tail).0.no == memory.no,
        memory.with_item(item, tail).0.yes == memory.yes,
        memory.with_item(item, tail).0.stack == memory.stack,
        memory.with_item(item, tail).0.code == memory.code,
        memory.with_item(item, tail).0.allocated(memory.with_item(item, tail).1.index as int),
{
    lemma_with_string(memory, item);
    let string = memory.with_string(item);
    lemma_wf_with_cell(string, Value::Cons(memory.string_head(item)), Value::Cons(tail));
}

/// Two strings, their cell and its cell of a list leave the bounds and the
/// registers as they are and take a cell for each byte and two more.
pub proof fn lemma_with_pair(memory: MemoryView, name: Seq<u8>, value: Seq<u8>, tail: Cons)
    requires
        memory.wf(),
        memory.room(name.len() + value.len() + 2),
        memory.allocated(tail.index as int),
    ensures
        memory.with_pair(name, value, tail).0.wf(),
        memory.with_pair(name, value, tail).0.used == memory.used + 2 * (name.len() + value.len()
            + 2),
        memory.with_pair(name, value, tail).0.size == memory.size,
        memory.with_pair(name, value, tail).0.start == memory.start,
        memory.with_pair(name, value, tail).0.null == memory.null,
        memory.with_pair(name, value, tail).0.no == memory.no,
        memory.with_pair(name, value, tail).0.yes == memory.yes,
        memory.with_pair(name, value, tail).0.stack == memory.stack,
        memory.with_pair(name, value, tail).0.code == memory.code,
        memory.with_pair(name, value, tail).0.allocated(
            memory.with_pair(name, value, tail).1.index as int,
        ),
{
    lemma_with_string(memory, value);
    let second = memory.with_string(value);
    lemma_with_string(second, name);
    let first = second.with_string(name);
    lemma_wf_with_cell(
        first,
        Value::Cons(second.string_head(name)),
        Value::Cons(memory.string_head(value)),
    );
    let pair = first.with_cell(
        Value::Cons(second.string_head(name)),
        Value::Cons(memory.string_head(value)),
    );
    lemma_wf_with_cell(pair, Value::Cons(first.next()), Value::Cons(tail));
}

/// The cells of a list of strings leave the bounds and the registers as
/// they are and take as many cells as counted, or fewer.
pub proof fn lemma_with_strings(memory: MemoryView, items: Seq<Seq<u8>>, paired: bool)
    requires
        memory.wf(),
        memory.room(cells(items)),
    ensures
        memory.with_strings(items, paired).0.wf(),
        memory.with_strings(items, paired).0.used <= memory.used + 2 * cells(items),
        memory.with_strings(items, paired).0.used >= memory.used,
        memory.with_strings(items, paired).0.size == memory.size,
        memory.with_strings(items, paired).0.start == memory.start,
        memory.with_strings(items, paired).0.null == memory.null,
        memory.with_strings(items, paired).0.no == memory.no,
        memory.with_strings(items, paired).0.yes == memory.yes,
        memory.with_strings(items, paired).0.stack == memory.stack,
        memory.with_strings(items, paired).0.code == memory.code,
        memory.with_strings(items, paired).0.allocated(
            memory.with_strings(items, paired).1.index as int,
        ),
    decreases items.len(),
{
    if items.len() == 0 || (paired && items.len() == 1) {
    } else if paired {
        let later = items.skip(2);
        lemma_cells_two(items);
        lemma_with_strings(memory, later, paired);
        let (rest, tail) = memory.with_strings(later, paired);
        lemma_with_pair(rest, items[0], items[1], tail);
    } else {
        let later = items.drop_first();
        lemma_with_strings(memory, later, paired);
        let (rest, tail) = memory.with_strings(later, paired);
        lemma_with_item(rest, items[0], tail);
    }
}

/// Counts the cells of a list of strings, or nothing where the count takes
/// more than a machine word holds.
fn count_cells(items: &Vec<Vec<u8>>) -> (result: Option<usize>)
    ensures
        match result {
            Some(count) => count == cells(strings(items@)),
            None => cells(strings(items@)) > usize::MAX,
        },
{
    let mut count: usize = 0;
    let mut index = items.len();
    let ghost all = strings(items@);

    proof {
        assert(all.skip(index as int) =~= Seq::empty());
    }
    while index > 0
        invariant
            index <= items.len(),
            all == strings(items@),
            count == cells(all.skip(index as int)),
        decreases index,
    {
        let ghost later = all.skip(index as int);

        index = index - 1;
        proof {
            assert(all.skip(index as int).drop_first() =~= later);
            assert(all.skip(index as int)[0] == items[index as int]@);
        }
        let length = items[index].len();

        if length >= usize::MAX - count {
            proof {
                lemma_cells_grow(all, index as int);
            }
            return None;
        }
        count = count + length + 1;
    }
    proof {
        assert(all.skip(0) =~= all);
    }
    Some(count)
}

/// The cells of a list of strings are no fewer than those of its end.
proof fn lemma_cells_grow(items: Seq<Seq<u8>>, index: int)
    requires
        0 <= index <= items.len(),
    ensures
        cells(items.skip(index)) <= cells(items),
    decreases index,
{
    if index > 0 {
        lemma_cells_grow(items.drop_first(), index - 1);
        assert(items.drop_first().skip(index - 1) =~= items.skip(index));
    } else {
        assert(items.skip(0) =~= items);
    }
}

/// Makes a string and puts it in front of a list.
fn add_item(memory: &mut Memory, item: &Vec<u8>, tail: Cons) -> (result: Cons)
    requires
        old(memory)@.wf(),
        old(memory)@.room(item@.len() + 1),
        old(memory)@.allocated(tail.index as int),
    ensures
        final(memory)@.wf(),
        (final(memory)@, result) == old(memory)@.with_item(item@, tail),
{
    proof {
        lemma_with_string(memory@, item@);
        lemma_with_item(memory@, item@, tail);
    }
    let string = memory.build_string(item.as_slice());

    match memory.allocate(Value::Cons(string), Value::Cons(tail)) {
        Ok(cell) => cell,
        Err(_) => tail,
    }
}

/// Makes two strings and a cell of the two, and puts it in front of a
/// list.
fn add_pair(memory: &mut Memory, name: &Vec<u8>, value: &Vec<u8>, tail: Cons) -> (result: Cons)
    requires
        old(memory)@.wf(),
        old(memory)@.room(name@.len() + value@.len() + 2),
        old(memory)@.allocated(tail.index as int),
    ensures
        final(memory)@.wf(),
        (final(memory)@, result) == old(memory)@.with_pair(name@, value@, tail),
{
    proof {
        lemma_with_string(memory@, value@);
        lemma_with_string(memory@.with_string(value@), name@);
        lemma_with_pair(memory@, name@, value@, tail);
    }
    let second = memory.build_string(value.as_slice());
    let first = memory.build_string(name.as_slice());
    let pair = match memory.allocate(Value::Cons(first), Value::Cons(second)) {
        Ok(pair) => pair,
        Err(_) => tail,
    };

    match memory.allocate(Value::Cons(pair), Value::Cons(tail)) {
        Ok(cell) => cell,
        Err(_) => tail,
    }
}

/// Makes a list of strings, or of cells of two strings where they are
/// paired, and returns the reference to it.  The space must have room for all
/// its cells: nothing is collected.
fn build_strings(memory: &mut Memory, items: &Vec<Vec<u8>>, paired: bool) -> (result: Cons)
    requires
        old(memory)@.wf(),
        old(memory)@.room(cells(strings(items@))),
    ensures
        final(memory)@.wf(),
        (final(memory)@, result) == old(memory)@.with_strings(strings(items@), paired),
        final(memory)@.allocated(result.index as int),
{
    let mut tail = memory.null();
    let mut index = if paired {
        items.len() / 2 * 2
    } else {
        items.len()
    };
    let ghost start = memory@;
    let ghost all = strings(items@);

    proof {
        if paired && items.len() % 2 == 1 {
            assert(all.skip(index as int).len() == 1);
        } else {
            assert(all.skip(index as int) =~= Seq::empty());
        }
    }
    while index > 0
        invariant
            index <= items.len(),
            paired ==> index % 2 == 0,
            all == strings(items@),
            start == old(memory)@,
            start.wf(),
            start.room(cells(all)),
            memory@.wf(),
            memory@.allocated(tail.index as int),
            memory@.size == start.size,
            memory@.used <= start.used + 2 * cells(all.skip(index as int)),
            (memory@, tail) == start.with_strings(all.skip(index as int), paired),
        decreases index,
    {
        let ghost later = all.skip(index as int);

        if paired {
            index = index - 2;
            proof {
                let now = all.skip(index as int);
                assert(now.skip(2) =~= later);
                assert(now[0] == items[index as int]@);
                assert(now[1] == items[index + 1]@);
                lemma_cells_two(now);
                lemma_cells_grow(all, index as int);
                lemma_with_strings(start, now, paired);
            }
            tail = add_pair(memory, &items[index], &items[index + 1], tail);
        } else {
            index = index - 1;
            proof {
                let now = all.skip(index as int);
                assert(now.drop_first() =~= later);
                assert(now[0] == items[index as int]@);
                lemma_cells_grow(all, index as int);
                lemma_with_strings(start, now, paired);
            }
            tail = add_item(memory, &items[index], tail);
        }
    }
    proof {
        assert(all.skip(0) =~= all);
    }
    tail
}

/// The set of the primitives of the context of a process.
pub struct ProcessContextPrimitiveSet<T: ProcessContext> {
    pub process_context: T,
}

/// What giving a list of strings makes of a memory and returns: room is
/// made for the cells of the list and one more, the list is made, and the
/// reference to it is pushed.  It fails where the cells cannot be counted in
/// a machine word and where the room cannot be made.
pub open spec fn given(
    memory: MemoryView,
    items: Seq<Seq<u8>>,
    paired: bool,
    new: MemoryView,
    result: Result<(), Error>,
) -> bool {
    if cells(items) >= usize::MAX {
        new == memory && result == Err::<(), Error>(Error::OutOfMemory)
    } else {
        exists|mid: MemoryView, done: Result<(), Error>|
            {
                &&& #[trigger] memory.reserving_cells(cells(items) + 1, mid, done)
                &&& match done {
                    Err(error) => new == mid && result == Err::<(), Error>(error),
                    Ok(_) => new == mid.with_strings(items, paired).0.pushed(
                        Value::Cons(mid.with_strings(items, paired).1),
                    ) && result == Ok::<(), Error>(()),
                }
            }
    }
}

impl<T: ProcessContext> ProcessContextPrimitiveSet<T> {
    /// Creates a set of primitives on a context.
    pub fn new(process_context: T) -> (result: Self)
        ensures
            result.process_context == process_context,
    {
        ProcessContextPrimitiveSet { process_context }
    }

    /// Gives a list of strings to a program.
    fn give(memory: &mut Memory, items: &Vec<Vec<u8>>, paired: bool) -> (result: Result<(), Error>)
        requires
            old(memory)@.wf(),
        ensures
            final(memory)@.wf(),
            given(old(memory)@, strings(items@), paired, final(memory)@, result),
    {
        let count = match count_cells(items) {
            Some(count) => count,
            None => {
                return Err(Error::OutOfMemory);
            },
        };
        if count == usize::MAX {
            return Err(Error::OutOfMemory);
        }
        match memory.reserve_cells(count + 1) {
            Err(error) => {
                assert(old(memory)@.reserving_cells(
                    cells(strings(items@)) + 1,
                    memory@,
                    Err::<(), Error>(error),
                ));
                Err(error)
            },
            Ok(_) => {
                let ghost mid = memory@;

                proof {
                    lemma_with_strings(mid, strings(items@), paired);
                    assert(old(memory)@.reserving_cells(
                        cells(strings(items@)) + 1,
                        mid,
                        Ok::<(), Error>(()),
                    ));
                }
                let list = build_strings(memory, items, paired);

                memory.push(Value::Cons(list))
            },
        }
    }
}

/// Returns the names and the values of variables, one after the other.
fn flatten(variables: Vec<(Vec<u8>, Vec<u8>)>) -> (result: Vec<Vec<u8>>)
    ensures
        strings(result@) == flattened(variables@),
{
    let mut variables = variables;
    let mut reversed: Vec<Vec<u8>> = Vec::new();
    let ghost all = variables@;

    while variables.len() > 0
        invariant
            variables@ == all.subrange(0, variables.len() as int),
            reversed.len() == 2 * (all.len() - variables.len()),
            forall|i: int|
                0 <= i < reversed.len() ==> #[trigger] reversed[i]@ == flattened(all)[2 * all.len()
                    - 1 - i],
        decreases variables.len(),
    {
        let ghost before = reversed@;
        let ghost length = variables.len();

        match variables.pop() {
            Some((name, value)) => {
                assert(all[length - 1] == (name, value));
                reversed.push(value);
                reversed.push(name);
                assert(variables@ =~= all.subrange(0, variables.len() as int));
                assert forall|i: int| 0 <= i < reversed.len() implies #[trigger] reversed[i]@
                    == flattened(all)[2 * all.len() - 1 - i] by {
                    if i < before.len() {
                        assert(reversed[i] == before[i]);
                    }
                }
            },
            None => {},
        }
    }
    let mut result: Vec<Vec<u8>> = Vec::new();

    while reversed.len() > 0
        invariant
            reversed.len() + result.len() == 2 * all.len(),
            forall|i: int|
                0 <= i < reversed.len() ==> #[trigger] reversed[i]@ == flattened(all)[2 * all.len()
                    - 1 - i],
            forall|i: int| 0 <= i < result.len() ==> #[trigger] result[i]@ == flattened(all)[i],
        decreases reversed.len(),
    {
        let ghost length = reversed.len();
        let ghost before = result@;
        let ghost rest = reversed@;

        match reversed.pop() {
            Some(item) => {
                assert(rest[length - 1] == item);
                result.push(item);
                assert forall|i: int| 0 <= i < result.len() implies #[trigger] result[i]@
                    == flattened(all)[i] by {
                    if i < before.len() {
                        assert(result[i] == before[i]);
                    }
                }
                assert forall|i: int| 0 <= i < reversed.len() implies #[trigger] reversed[i]@
                    == flattened(all)[2 * all.len() - 1 - i] by {
                    assert(reversed[i] == rest[i]);
                }
            },
            None => {},
        }
    }
    assert(strings(result@) =~= flattened(all));
    result
}

impl<T: ProcessContext> PrimitiveSet for ProcessContextPrimitiveSet<T> {
    /// The list that is given is the list of the strings that the context
    /// gives, of the names and the values in twos for the environment.
    open spec fn operation(
        self,
        memory: MemoryView,
        primitive: u64,
        after: Self,
        new: MemoryView,
        result: Result<(), Error>,
    ) -> bool {
        &&& after == self
        &&& if primitive == COMMAND_LINE {
            exists|items: Seq<Vec<u8>>|
                {
                    &&& #[trigger] self.process_context.commanding(items)
                    &&& given(memory, strings(items), false, new, result)
                }
        } else if primitive == ENVIRONMENT_VARIABLES {
            exists|variables: Seq<(Vec<u8>, Vec<u8>)>|
                {
                    &&& #[trigger] self.process_context.surrounding(variables)
                    &&& given(memory, flattened(variables), true, new, result)
                }
        } else {
            new == memory && result == Err::<(), Error>(Error::IllegalPrimitive)
        }
    }

    fn operate(&mut self, memory: &mut Memory, primitive: u64) -> (result: Result<(), Error>) {
        match Primitive::from_number(primitive) {
            None => Err(Error::IllegalPrimitive),
            Some(Primitive::CommandLine) => {
                let items = self.process_context.command_line();
                let result = Self::give(memory, &items, false);

                assert(self.process_context.commanding(items@));
                result
            },
            Some(Primitive::EnvironmentVariables) => {
                let variables = self.process_context.environment_variables();
                let ghost given_variables = variables@;
                let items = flatten(variables);
                let result = Self::give(memory, &items, true);

                assert(self.process_context.surrounding(given_variables));
                result
            },
        }
    }
}

} // verus!
