//! Objects of the host that a program holds.
//!
//! An object of the host is kept in a table outside the memory.  A program
//! holds it as a cell whose second slot carries the foreign tag and whose
//! first slot holds the number of its place in the table.  After a collection
//! the cells in use tell which places are still held: the scan marks every
//! place that a cell with the foreign tag names, whether or not anything
//! refers to that cell, so that no place is given up too early.

use crate::vm::memory::Memory;
use crate::vm::model::MemoryView;
use crate::vm::number::Number;
use crate::vm::value::Value;
use vstd::prelude::*;

verus! {

/// The tag on the second slot of a cell that stands for an object of the
/// host.
pub const FOREIGN_TAG: u8 = 7;

/// The marks of the places of a table: a bit for each place, in a bit vector
/// of the crate `bitvec`.
#[verifier::external_body]
pub struct Marks {
    bits: bitvec::vec::BitVec,
}

/// The bits of the marks, a truth value for each place.
pub uninterp spec fn marked(marks: Marks) -> Seq<bool>;

/// The greatest number of places of a table: the greatest number of bits of
/// a bit vector.
pub const MAXIMUM_PLACES: usize = usize::MAX / 8;

/// Makes the marks of a number of places with `BitVec::repeat`, which
/// repeats a bit for the length, and takes no length above the greatest
/// number of bits: no place is marked.
#[verifier::external_body]
fn unmarked(length: usize) -> (marks: Marks)
    requires
        length <= MAXIMUM_PLACES,
    ensures
        marked(marks) == Seq::new(length as nat, |i: int| false),
{
    Marks { bits: bitvec::vec::BitVec::repeat(false, length) }
}

/// Marks a place with `BitSlice::set`, which writes a bit at an index within
/// the length and leaves the others.
#[verifier::external_body]
fn mark(marks: &mut Marks, index: usize)
    requires
        index < marked(*old(marks)).len(),
    ensures
        marked(*final(marks)) == marked(*old(marks)).update(index as int, true),
{
    marks.bits.set(index, true);
}

/// Tells whether a place is marked, with the index of `BitSlice`, which
/// gives the bit at an index within the length.
#[verifier::external_body]
fn is_marked(marks: &Marks, index: usize) -> (result: bool)
    requires
        index < marked(*marks).len(),
    ensures
        result == marked(*marks)[index as int],
{
    marks.bits[index]
}

impl MemoryView {
    /// The cell at an index stands for the object of the host at a place.
    pub open spec fn names(self, cell: int, place: int) -> bool {
        &&& self.heap[cell] == Value::Number(Number(place as u64))
        &&& 0 <= place <= u64::MAX
        &&& self.heap[cell + 1] matches Value::Cons(cons) && cons.tag == FOREIGN_TAG
    }

    /// One of the first cells in use stands for the object at a place.
    pub open spec fn held_within(self, place: int, cells: int) -> bool {
        exists|k: int| 0 <= k < cells && #[trigger] self.names(self.start + 2 * k, place)
    }

    /// A cell in use stands for the object at a place.
    pub open spec fn held(self, place: int) -> bool {
        self.held_within(place, self.used / 2)
    }
}

/// Marks the places of a table of a number of places that the cells in use
/// of a memory name.
fn scan(memory: &Memory, places: usize) -> (marks: Marks)
    requires
        memory@.wf(),
        places <= MAXIMUM_PLACES,
    ensures
        marked(marks).len() == places,
        forall|place: int| 0 <= place < places ==> marked(marks)[place] == memory@.held(place),
{
    let mut marks = unmarked(places);
    let mut index: usize = 0;
    let start = memory.allocation_start();
    let cells = memory.allocation_index() / 2;

    while index < cells
        invariant
            memory@.wf(),
            start == memory@.start,
            cells == memory@.used / 2,
            index <= cells,
            marked(marks).len() == places,
            forall|place: int|
                0 <= place < places ==> marked(marks)[place] == memory@.held_within(
                    place,
                    index as int,
                ),
        decreases cells - index,
    {
        let cons = crate::vm::cons::Cons::new(start + 2 * index);
        let ghost before = marked(marks);
        let ghost cell = start + 2 * index;

        assert(memory@.allocated(cell));
        match (memory.car(cons), memory.cdr(cons)) {
            (Value::Number(number), Value::Cons(tagged)) => {
                if tagged.tag() == FOREIGN_TAG && number.to_u64() < places as u64 {
                    mark(&mut marks, number.to_u64() as usize);
                }
            },
            _ => {},
        }
        proof {
            assert forall|place: int| 0 <= place < places implies marked(marks)[place]
                == memory@.held_within(place, index + 1) by {
                if memory@.held_within(place, index as int) {
                    let k = choose|k: int|
                        0 <= k < index && #[trigger] memory@.names(memory@.start + 2 * k, place);
                    assert(memory@.names(memory@.start + 2 * k, place));
                }
                if memory@.names(cell, place) {
                    assert(memory@.names(memory@.start + 2 * index, place));
                }
                if memory@.held_within(place, index + 1) {
                    let k = choose|k: int|
                        0 <= k < index + 1 && #[trigger] memory@.names(
                            memory@.start + 2 * k,
                            place,
                        );
                    if k < index {
                        assert(memory@.names(memory@.start + 2 * k, place));
                    }
                }
            }
        }
        index = index + 1;
    }
    marks
}

/// A table of objects of the host, each at a place or the place free.
pub struct ForeignTable<T> {
    values: Vec<Option<T>>,
}

/// A place is the first free place of a table.
pub open spec fn is_first_free<T>(values: Seq<Option<T>>, place: int) -> bool {
    &&& 0 <= place < values.len()
    &&& values[place] is None
    &&& forall|j: int| 0 <= j < place ==> values[j] is Some
}

/// The first free place of a table, if it has one.
pub open spec fn first_free<T>(values: Seq<Option<T>>) -> Option<usize> {
    if exists|place: int| is_first_free(values, place) {
        Some((choose|place: int| is_first_free(values, place)) as usize)
    } else {
        None
    }
}

/// The table after the places that no cell in use of a memory names were
/// given up.
pub open spec fn swept<T>(values: Seq<Option<T>>, memory: MemoryView) -> Seq<Option<T>> {
    Seq::new(
        values.len(),
        |i: int|
            if memory.held(i) {
                values[i]
            } else {
                None
            },
    )
}

impl<T> View for ForeignTable<T> {
    type V = Seq<Option<T>>;

    closed spec fn view(&self) -> Seq<Option<T>> {
        self.values@
    }
}

impl<T> ForeignTable<T> {
    /// Creates a table of a number of places, all free.  A table has no
    /// more places than a bit vector has bits.
    pub fn new(places: usize) -> (result: Self)
        requires
            places <= MAXIMUM_PLACES,
        ensures
            result@.len() == places,
            forall|i: int| 0 <= i < places ==> result@[i] is None,
    {
        let mut values: Vec<Option<T>> = Vec::new();

        while values.len() < places
            invariant
                values.len() <= places,
                forall|i: int| 0 <= i < values.len() ==> values[i] is None,
            decreases places - values.len(),
        {
            values.push(None);
        }
        ForeignTable { values }
    }

    /// Returns the first free place.
    pub fn find_free(&self) -> (result: Option<usize>)
        ensures
            result == first_free(self@),
            result matches Some(index) ==> index < self@.len() && self@[index as int] is None,
    {
        let mut index: usize = 0;

        while index < self.values.len()
            invariant
                index <= self.values.len(),
                forall|j: int| 0 <= j < index ==> self.values[j] is Some,
            decreases self.values.len() - index,
        {
            if self.values[index].is_none() {
                proof {
                    assert(is_first_free(self@, index as int));
                    let found = choose|place: int| is_first_free(self@, place);
                    assert(found == index) by {
                        if found < index {
                            assert(self.values[found] is Some);
                        } else if found > index {
                            assert(self@[index as int] is Some);
                        }
                    }
                }
                return Some(index);
            }
            index = index + 1;
        }
        proof {
            assert forall|place: int| !is_first_free(self@, place) by {
                if 0 <= place < self@.len() {
                    assert(self.values[place] is Some);
                }
            }
        }
        None
    }

    /// Returns the object that a value stands for: the object at the place
    /// that the cell of the value names, where the value refers to a cell with
    /// the foreign tag and the place holds an object.
    pub fn get(&self, memory: &Memory, value: Value) -> (result: Option<&T>)
        requires
            memory@.wf(),
            memory@.valid(value),
        ensures
            match value {
                Value::Cons(cons) => if memory@.names(
                    cons.index as int,
                    memory@.car(cons)->Number_0.0 as int,
                ) && memory@.car(cons)->Number_0.0 < self@.len() {
                    match self@[memory@.car(cons)->Number_0.0 as int] {
                        Some(object) => result == Some(&object),
                        None => result is None,
                    }
                } else {
                    result is None
                },
                Value::Number(_) => result is None,
            },
    {
        match value {
            Value::Number(_) => None,
            Value::Cons(cons) => match (memory.car(cons), memory.cdr(cons)) {
                (Value::Number(place), Value::Cons(tagged)) => {
                    if tagged.tag() == FOREIGN_TAG && place.to_u64() < self.values.len() as u64 {
                        self.values[place.to_u64() as usize].as_ref()
                    } else {
                        None
                    }
                },
                _ => None,
            },
        }
    }

    /// Gives up the places that no cell in use of a memory names.
    pub fn collect_garbages(&mut self, memory: &Memory)
        requires
            memory@.wf(),
            old(self)@.len() <= MAXIMUM_PLACES,
        ensures
            final(self)@ == swept(old(self)@, memory@),
    {
        let marks = scan(memory, self.values.len());
        let mut index: usize = 0;

        while index < self.values.len()
            invariant
                index <= self.values.len(),
                self.values.len() == old(self).values.len(),
                marked(marks).len() == self.values.len(),
                forall|place: int|
                    0 <= place < self.values.len() ==> marked(marks)[place] == memory@.held(place),
                forall|i: int| 0 <= i < index ==> self.values[i] == swept(old(self)@, memory@)[i],
                forall|i: int| index <= i < self.values.len() ==> self.values[i] == old(self)@[i],
            decreases self.values.len() - index,
        {
            if !is_marked(&marks, index) {
                self.values[index] = None;
            }
            index = index + 1;
        }
        assert(self@ =~= swept(old(self)@, memory@));
    }

    /// Puts an object in the table and returns the reference to a new cell
    /// that stands for it.  Where no place is free, the places that no cell in
    /// use names are given up first; it fails where that frees none, and where
    /// the memory has no room for the cell.
    pub fn insert(&mut self, memory: &mut Memory, object: T) -> (result: Result<
        crate::vm::cons::Cons,
        crate::vm::error::Error,
    >)
        requires
            old(memory)@.wf(),
            old(self)@.len() <= MAXIMUM_PLACES,
        ensures
            final(memory)@.wf(),
            ({
                let table = if first_free(old(self)@) is Some {
                    old(self)@
                } else {
                    swept(old(self)@, old(memory)@)
                };
                match first_free(table) {
                    None => result == Err::<crate::vm::cons::Cons, crate::vm::error::Error>(
                        crate::vm::error::Error::OutOfMemory,
                    ) && final(self)@ == table && final(memory)@ == old(memory)@,
                    Some(place) => final(self)@ == table.update(place as int, Some(object))
                        && old(memory)@.allocation(
                        Value::Number(Number(place as u64)),
                        Value::Cons(old(memory)@.null.with_tag(FOREIGN_TAG)),
                        final(memory)@,
                        result,
                    ),
                }
            }),
    {
        let place = match self.find_free() {
            Some(place) => place,
            None => {
                self.collect_garbages(memory);
                match self.find_free() {
                    Some(place) => place,
                    None => {
                        return Err(crate::vm::error::Error::OutOfMemory);
                    },
                }
            },
        };
        self.values[place] = Some(object);
        let null = memory.null();
        memory.allocate(
            Value::Number(Number::new(place as u64)),
            Value::Cons(null.set_tag(FOREIGN_TAG)),
        )
    }
}

} // verus!
