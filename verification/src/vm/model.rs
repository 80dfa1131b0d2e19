use super::cons::Cons;
use super::error::Error;
use super::number::Number;
use super::value::Value;
use vstd::prelude::*;

verus! {

/// The mathematical model of a memory: the slots of its heap, where the
/// active space starts, how many of its slots are in use, how many slots a
/// space holds, and the five registers that the collector starts from.
pub struct MemoryView {
    /// All slots of the heap, both spaces.
    pub heap: Seq<Value>,
    /// The first slot of the active space.
    pub start: int,
    /// The number of slots in use in the active space.
    pub used: int,
    /// The number of slots in a space.
    pub size: int,
    /// The program counter.
    pub code: Cons,
    /// The stack.
    pub stack: Cons,
    /// The sentinel for falsity.
    pub no: Cons,
    /// The sentinel for truth.
    pub yes: Cons,
    /// The sentinel for the empty list.
    pub null: Cons,
}

/// A relocation: where each cell that a collection moves goes, from the index
/// of its first slot before to the index of its first slot after.
pub type Relocation = Map<int, int>;

/// The reference that a relocation makes of a reference: the same tag on the
/// cell's new index.
pub open spec fn relocate_cons(r: Relocation, cons: Cons) -> Cons {
    Cons { index: r[cons.index as int] as usize, tag: cons.tag }
}

/// The value that a relocation makes of a value: a number stays, a reference
/// follows its cell.
pub open spec fn relocate(r: Relocation, value: Value) -> Value {
    match value {
        Value::Number(_) => value,
        Value::Cons(cons) => Value::Cons(relocate_cons(r, cons)),
    }
}

/// A relocation is defined on the cell that a value refers to.
pub open spec fn covers(r: Relocation, value: Value) -> bool {
    match value {
        Value::Number(_) => true,
        Value::Cons(cons) => r.dom().contains(cons.index as int),
    }
}

/// The identity on the cells in a set.
pub open spec fn identity(cells: Set<int>) -> Relocation {
    Map::new(|i: int| cells.contains(i), |i: int| i)
}

/// The indices of the cells that two values refer to.
pub open spec fn value_roots(x: Value, y: Value) -> Set<int> {
    Set::new(
        |i: int|
            (x matches Value::Cons(c) && c.index == i) || (y matches Value::Cons(c) && c.index
                == i),
    )
}

impl MemoryView {
    /// `i` is the first slot of a cell in use in the active space.
    pub open spec fn allocated(self, i: int) -> bool {
        &&& self.start <= i < self.start + self.used
        &&& (i - self.start) % 2 == 0
    }

    /// A value is a number or refers to a cell in use.
    pub open spec fn valid(self, value: Value) -> bool {
        match value {
            Value::Number(_) => true,
            Value::Cons(cons) => self.allocated(cons.index as int),
        }
    }

    /// The first slot of a cell.
    pub open spec fn car(self, cons: Cons) -> Value {
        self.heap[cons.index as int]
    }

    /// The second slot of a cell.
    pub open spec fn cdr(self, cons: Cons) -> Value {
        self.heap[cons.index as int + 1]
    }

    /// The active space has no room for another cell.
    pub open spec fn full(self) -> bool {
        self.used == self.size
    }

    /// The sentinel for a truth value.
    pub open spec fn boolean(self, value: bool) -> Cons {
        if value {
            self.yes
        } else {
            self.no
        }
    }

    /// The layout is sound: the heap holds two spaces of an even number of
    /// slots, and whole cells are in use in the active one.
    pub open spec fn layout(self) -> bool {
        &&& 0 <= self.size
        &&& self.size % 2 == 0
        &&& 2 * self.size <= self.heap.len() <= usize::MAX
        &&& (self.start == 0 || self.start == self.size)
        &&& 0 <= self.used <= self.size
        &&& self.used % 2 == 0
    }

    /// The memory is well formed: the layout is sound, and the registers and
    /// all slots in use are numbers or refer to cells in use.
    pub open spec fn wf(self) -> bool {
        &&& self.layout()
        &&& self.allocated(self.code.index as int)
        &&& self.allocated(self.stack.index as int)
        &&& self.allocated(self.no.index as int)
        &&& self.allocated(self.yes.index as int)
        &&& self.allocated(self.null.index as int)
        &&& forall|s: int| self.start <= s < self.start + self.used ==> #[trigger] self.valid(self.heap[s])
    }

    /// The memory that a heap is made into: three cells in use at the start
    /// of the first space, for falsity, for truth and for the empty list, whose
    /// two slots refer to the first two; the stack and the program counter are
    /// the empty list.
    pub open spec fn initial(heap: Seq<Value>) -> MemoryView {
        let zero = Value::Number(Number(0));
        let no = Cons { index: 0, tag: 0 };
        let yes = Cons { index: 2, tag: 0 };
        let null = Cons { index: 4, tag: 0 };
        MemoryView {
            heap: heap.update(0, zero).update(1, zero).update(2, zero).update(3, zero).update(
                4,
                Value::Cons(no),
            ).update(5, Value::Cons(yes)),
            start: 0,
            used: 6,
            size: heap.len() as int / 4 * 2,
            code: null,
            stack: null,
            no,
            yes,
            null,
        }
    }

    /// The cell down a list: `list` after following the second slot
    /// `index` times, or nothing where a second slot on the way holds a
    /// number.
    pub open spec fn tail(self, list: Cons, index: nat) -> Option<Cons>
        decreases index,
    {
        if index == 0 {
            Some(list)
        } else {
            match self.cdr(list) {
                Value::Cons(next) => self.tail(next, (index - 1) as nat),
                Value::Number(_) => None,
            }
        }
    }

    /// What popping a value returns: the first slot of the stack's cell, or
    /// the error where the stack is the empty list or its second slot holds a
    /// number.
    pub open spec fn top_result(self) -> Result<Value, Error> {
        if self.stack == self.null {
            Err(Error::StackUnderflow)
        } else if self.cdr(self.stack) is Number {
            Err(Error::ConsExpected)
        } else {
            Ok(self.car(self.stack))
        }
    }

    /// The memory after popping a value: the stack is what the second slot of
    /// its cell refers to; where popping fails, nothing changes.
    pub open spec fn popped(self) -> MemoryView {
        match self.top_result() {
            Ok(_) => self.with_stack(self.cdr(self.stack)->Cons_0),
            Err(_) => self,
        }
    }

    /// The memory after popping `count` values, stopping at the first
    /// failure.
    pub open spec fn popped_many(self, count: nat) -> MemoryView
        decreases count,
    {
        if count == 0 || self.top_result() is Err {
            self
        } else {
            self.popped().popped_many((count - 1) as nat)
        }
    }

    /// What popping `count` values returns: the values with the one popped
    /// first at the end, or the first failure.
    pub open spec fn top_many(self, count: nat) -> Result<Seq<Value>, Error>
        decreases count,
    {
        if count == 0 {
            Ok(Seq::empty())
        } else {
            match self.top_result() {
                Err(error) => Err(error),
                Ok(value) => match self.popped().top_many((count - 1) as nat) {
                    Err(error) => Err(error),
                    Ok(values) => Ok(values.push(value)),
                },
            }
        }
    }

    /// The reference to the cell that the next allocation fills.
    pub open spec fn next(self) -> Cons {
        Cons { index: (self.start + self.used) as usize, tag: 0 }
    }

    /// The memory after a cell of the two values was put behind the cells in
    /// use, with no collection.
    pub open spec fn with_cell(self, car: Value, cdr: Value) -> MemoryView {
        MemoryView {
            heap: self.heap.update(self.start + self.used, car).update(
                self.start + self.used + 1,
                cdr,
            ),
            used: self.used + 2,
            ..self
        }
    }

    /// The text of the first cells in use: a line for each, with its two
    /// slots.
    pub open spec fn cells_text(self, cells: nat) -> Seq<char>
        decreases cells,
    {
        if cells == 0 {
            Seq::empty()
        } else {
            self.cells_text((cells - 1) as nat) + self.heap[self.start + 2 * (cells - 1)].text()
                + " "@ + self.heap[self.start + 2 * (cells - 1) + 1].text() + "\n"@
        }
    }

    /// The text of the memory: the cells in use.
    pub open spec fn text(self) -> Seq<char> {
        self.cells_text((self.used / 2) as nat)
    }

    /// The memory with another stack.
    pub open spec fn with_stack(self, stack: Cons) -> MemoryView {
        MemoryView { stack, ..self }
    }

    /// The memory with another program counter.
    pub open spec fn with_code(self, code: Cons) -> MemoryView {
        MemoryView { code, ..self }
    }

    /// The memory with another value in the first slot of a cell.
    pub open spec fn with_car(self, cons: Cons, value: Value) -> MemoryView {
        MemoryView { heap: self.heap.update(cons.index as int, value), ..self }
    }

    /// The memory with another value in the second slot of a cell.
    pub open spec fn with_cdr(self, cons: Cons, value: Value) -> MemoryView {
        MemoryView { heap: self.heap.update(cons.index as int + 1, value), ..self }
    }

    /// The memory after a value was pushed with no collection.
    pub open spec fn pushed(self, value: Value) -> MemoryView {
        self.with_cell(value, Value::Cons(self.stack)).with_stack(self.next())
    }

    /// The indices of the cells that the registers refer to.
    pub open spec fn registers(self) -> Set<int> {
        Set::new(
            |i: int|
                i == self.code.index || i == self.stack.index || i == self.no.index || i
                    == self.yes.index || i == self.null.index,
        )
    }

    /// A slot of cell `i` refers to cell `j`.
    pub open spec fn points_to(self, i: int, j: int) -> bool {
        ||| (self.heap[i] matches Value::Cons(c) && c.index == j)
        ||| (self.heap[i + 1] matches Value::Cons(c) && c.index == j)
    }

    /// A chain of cells from one of the roots, each referring to the next.
    pub open spec fn is_path(self, roots: Set<int>, path: Seq<int>) -> bool {
        &&& path.len() > 0
        &&& roots.contains(path[0])
        &&& forall|k: int| 0 < k < path.len() ==> self.points_to(#[trigger] path[k - 1], path[k])
    }

    /// Cell `i` can be reached from the roots.
    pub open spec fn reachable(self, roots: Set<int>, i: int) -> bool {
        exists|path: Seq<int>| #[trigger] self.is_path(roots, path) && path.last() == i
    }

    /// The cells that can be reached from the registers and from two more
    /// values: what a collection keeps.
    pub open spec fn live(self, x: Value, y: Value) -> Set<int> {
        Set::new(|i: int| self.reachable(self.registers().union(value_roots(x, y)), i))
    }

    /// What an allocation of a cell of two values makes of this memory and
    /// returns.  While the active space has room, the cell is put behind the
    /// cells in use.  When it is full, garbage is collected first, with the
    /// two values as roots beside the registers; if the live cells leave room,
    /// the cell of what has become of the two values is put behind them, and if
    /// they fill the space, the allocation fails and leaves the collected
    /// memory.
    #[verifier::opaque]
    pub open spec fn allocation(
        self,
        car: Value,
        cdr: Value,
        new: MemoryView,
        result: Result<Cons, Error>,
    ) -> bool {
        if !self.full() {
            result == Ok::<Cons, Error>(self.next()) && new == self.with_cell(car, cdr)
        } else {
            exists|r: Relocation, mid: MemoryView|
                {
                    &&& #[trigger] self.collected(car, cdr, r, mid)
                    &&& mid.wf()
                    &&& covers(r, car)
                    &&& covers(r, cdr)
                    &&& if mid.full() {
                        result == Err::<Cons, Error>(Error::OutOfMemory) && new == mid
                    } else {
                        result == Ok::<Cons, Error>(mid.next()) && new == mid.with_cell(
                            relocate(r, car),
                            relocate(r, cdr),
                        )
                    }
                }
        }
    }

    /// What pushing a value makes of this memory and returns: a cell of the
    /// value and the stack is allocated and becomes the stack.
    #[verifier::opaque]
    pub open spec fn pushing(self, value: Value, new: MemoryView, result: Result<(), Error>) -> bool {
        exists|mid: MemoryView, cell: Result<Cons, Error>|
            {
                &&& #[trigger] self.allocation(value, Value::Cons(self.stack), mid, cell)
                &&& match cell {
                    Ok(cons) => result == Ok::<(), Error>(()) && new == mid.with_stack(cons),
                    Err(error) => result == Err::<(), Error>(error) && new == mid,
                }
            }
    }

    /// The relocation `r` carries cell `i` over into `new`: the cell is in
    /// use, it goes to a cell in use, the relocation is defined on the cells
    /// that its slots refer to, and the slots of the cell that it goes to hold
    /// what the relocation makes of its own.
    pub open spec fn cell_moved(self, r: Relocation, new: MemoryView, i: int) -> bool {
        &&& self.allocated(i)
        &&& new.allocated(r[i])
        &&& covers(r, self.heap[i])
        &&& covers(r, self.heap[i + 1])
        &&& new.heap[r[i]] == relocate(r, self.heap[i])
        &&& new.heap[r[i] + 1] == relocate(r, self.heap[i + 1])
    }

    /// The relocation `r` carries this memory over into `new`: it is defined
    /// on a set of cells in use that holds the registers' cells and, with a
    /// cell, the cells that its slots refer to; it sends different cells to
    /// different cells in use in `new`; each cell's slots are in `new` what the
    /// relocation makes of them; and so are the registers.
    pub open spec fn moved(self, r: Relocation, new: MemoryView) -> bool {
        &&& new.size == self.size
        &&& new.heap.len() == self.heap.len()
        &&& forall|i: int| r.dom().contains(i) ==> #[trigger] self.cell_moved(r, new, i)
        &&& forall|i: int, j: int|
            r.dom().contains(i) && r.dom().contains(j) && #[trigger] r[i] == #[trigger] r[j] ==> i
                == j
        &&& r.dom().contains(self.code.index as int)
        &&& r.dom().contains(self.stack.index as int)
        &&& r.dom().contains(self.no.index as int)
        &&& r.dom().contains(self.yes.index as int)
        &&& r.dom().contains(self.null.index as int)
        &&& new.code == relocate_cons(r, self.code)
        &&& new.stack == relocate_cons(r, self.stack)
        &&& new.no == relocate_cons(r, self.no)
        &&& new.yes == relocate_cons(r, self.yes)
        &&& new.null == relocate_cons(r, self.null)
    }

    /// `new` is what a collection makes of this memory with two more values
    /// as roots: the relocation carries the memory over, it is defined on
    /// exactly the live cells, and the cells in use in `new` are exactly those
    /// that it sends them to, in the other space.
    pub open spec fn collected(self, x: Value, y: Value, r: Relocation, new: MemoryView) -> bool {
        &&& self.moved(r, new)
        &&& r.dom() == self.live(x, y)
        &&& new.start == self.size - self.start
        &&& new.used == 2 * self.live(x, y).len()
        &&& forall|j: int| #[trigger] new.allocated(j) ==> r.contains_value(j)
    }
}

/// A memory with the heap and the bounds of a well-formed one is well formed
/// as soon as its registers refer to cells in use.
pub proof fn lemma_wf_registers(a: MemoryView, b: MemoryView)
    requires
        a.wf(),
        b.heap == a.heap,
        b.start == a.start,
        b.used == a.used,
        b.size == a.size,
        b.allocated(b.code.index as int),
        b.allocated(b.stack.index as int),
        b.allocated(b.no.index as int),
        b.allocated(b.yes.index as int),
        b.allocated(b.null.index as int),
    ensures
        b.wf(),
{
    assert forall|s: int| b.start <= s < b.start + b.used implies #[trigger] b.valid(
        b.heap[s],
    ) by {
        assert(a.valid(a.heap[s]));
    }
}

/// Both slots of a cell in use of a well-formed memory are numbers or refer
/// to cells in use.
pub proof fn lemma_valid_slots(memory: MemoryView, i: int)
    requires
        memory.wf(),
        memory.allocated(i),
    ensures
        memory.valid(memory.heap[i]),
        memory.valid(memory.heap[i + 1]),
{
}

/// Storing a number or a reference to a cell in use in a slot in use leaves
/// a well-formed memory well formed.
pub proof fn lemma_wf_update(a: MemoryView, b: MemoryView, slot: int, value: Value)
    requires
        a.wf(),
        a.start <= slot < a.start + a.used,
        a.valid(value),
        b == (MemoryView { heap: a.heap.update(slot, value), ..a }),
    ensures
        b.wf(),
{
    assert forall|s: int| b.start <= s < b.start + b.used implies #[trigger] b.valid(
        b.heap[s],
    ) by {
        assert(a.valid(a.heap[s]));
    }
}

/// Putting a cell of two numbers or references to cells in use behind the
/// cells in use of a well-formed memory with room leaves it well formed.
pub proof fn lemma_wf_with_cell(memory: MemoryView, car: Value, cdr: Value)
    requires
        memory.wf(),
        !memory.full(),
        memory.valid(car),
        memory.valid(cdr),
    ensures
        memory.with_cell(car, cdr).wf(),
        memory.with_cell(car, cdr).allocated(memory.next().index as int),
        memory.with_cell(car, cdr).car(memory.next()) == car,
        memory.with_cell(car, cdr).cdr(memory.next()) == cdr,
{
    let new = memory.with_cell(car, cdr);
    assert forall|s: int| new.start <= s < new.start + new.used implies #[trigger] new.valid(
        new.heap[s],
    ) by {
        if s < memory.start + memory.used {
            assert(memory.valid(memory.heap[s]));
        }
    }
}

/// The identity on the cells in use carries a well-formed memory over into
/// the memory with one more cell.
pub proof fn lemma_with_cell_moved(memory: MemoryView, car: Value, cdr: Value)
    requires
        memory.wf(),
        !memory.full(),
        memory.valid(car),
        memory.valid(cdr),
    ensures
        memory.moved(identity(Set::new(|i: int| memory.allocated(i))), memory.with_cell(car, cdr)),
        covers(identity(Set::new(|i: int| memory.allocated(i))), car),
        covers(identity(Set::new(|i: int| memory.allocated(i))), cdr),
        relocate(identity(Set::new(|i: int| memory.allocated(i))), car) == car,
        relocate(identity(Set::new(|i: int| memory.allocated(i))), cdr) == cdr,
{
    let r = identity(Set::new(|i: int| memory.allocated(i)));
    let new = memory.with_cell(car, cdr);
    assert forall|i: int| r.dom().contains(i) implies #[trigger] memory.cell_moved(r, new, i) by {
        lemma_valid_slots(memory, i);
        lemma_identity(memory, memory.heap[i]);
        lemma_identity(memory, memory.heap[i + 1]);
    }
    lemma_identity(memory, car);
    lemma_identity(memory, cdr);
    lemma_identity(memory, Value::Cons(memory.code));
    lemma_identity(memory, Value::Cons(memory.stack));
    lemma_identity(memory, Value::Cons(memory.no));
    lemma_identity(memory, Value::Cons(memory.yes));
    lemma_identity(memory, Value::Cons(memory.null));
}

/// The identity on the cells in use leaves a number and a reference to a
/// cell in use as they are.
pub proof fn lemma_identity(memory: MemoryView, value: Value)
    requires
        memory.layout(),
        memory.valid(value),
    ensures
        covers(identity(Set::new(|i: int| memory.allocated(i))), value),
        relocate(identity(Set::new(|i: int| memory.allocated(i))), value) == value,
{
}

} // verus!
