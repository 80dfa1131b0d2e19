use super::cons::Cons;
use super::error::Error;
use super::model::{
    covers, lemma_valid_slots, lemma_wf_registers, lemma_wf_update, lemma_wf_with_cell, relocate, relocate_cons, value_roots, MemoryView, Relocation,
};
use super::number::Number;
use super::value::Value;
use vstd::prelude::*;

verus! {

/// The number of slots in a cons cell.
pub const CONS_FIELD_COUNT: usize = 2;

/// A memory: a heap of cons cells in two spaces, one of them active, with the
/// registers that the collector starts from.
pub struct Memory {
    code: Cons,
    stack: Cons,
    no: Cons,
    yes: Cons,
    null: Cons,
    allocation_index: usize,
    space: bool,
    heap: Vec<Value>,
}

impl View for Memory {
    type V = MemoryView;

    closed spec fn view(&self) -> MemoryView {
        MemoryView {
            heap: self.heap@,
            start: if self.space {
                self.heap.len() as int / 4 * 2
            } else {
                0
            },
            used: self.allocation_index as int,
            size: self.heap.len() as int / 4 * 2,
            code: self.code,
            stack: self.stack,
            no: self.no,
            yes: self.yes,
            null: self.null,
        }
    }
}

impl Memory {
    /// Makes a heap into a memory with the three sentinels in it.  A space is
    /// half of the heap, rounded down to whole cells; the heap must hold three
    /// cells in each space.
    pub fn new(heap: Vec<Value>) -> (result: Result<Self, Error>)
        ensures
            result is Ok <==> heap.len() >= 12,
            match result {
                Ok(memory) => memory@ == MemoryView::initial(heap@) && memory@.wf(),
                Err(error) => error == Error::OutOfMemory,
            },
    {
        let zero = Value::Number(Number::new(0));
        let mut memory = Memory {
            code: Cons::new(0),
            stack: Cons::new(0),
            no: Cons::new(0),
            yes: Cons::new(0),
            null: Cons::new(0),
            allocation_index: 0,
            space: false,
            heap,
        };

        if memory.space_size() < 6 {
            return Err(Error::OutOfMemory);
        }
        let no = memory.allocate_raw(zero, zero);
        let yes = memory.allocate_raw(zero, zero);
        let null = memory.allocate_raw(Value::Cons(no), Value::Cons(yes));

        memory.no = no;
        memory.yes = yes;
        memory.null = null;
        memory.stack = null;
        memory.code = null;
        assert(memory@.heap =~= MemoryView::initial(heap@).heap);

        Ok(memory)
    }

    /// Returns the program counter.
    pub fn code(&self) -> (result: Cons)
        ensures
            result == self@.code,
    {
        self.code
    }

    /// Sets the program counter.
    pub fn set_code(&mut self, code: Cons)
        requires
            old(self)@.wf(),
            old(self)@.allocated(code.index as int),
        ensures
            final(self)@ == old(self)@.with_code(code),
            final(self)@.wf(),
    {
        self.code = code;
        proof {
            lemma_wf_registers(old(self)@, self@);
        }
    }

    /// Returns the stack.
    pub fn stack(&self) -> (result: Cons)
        ensures
            result == self@.stack,
    {
        self.stack
    }

    /// Sets the stack.
    pub fn set_stack(&mut self, stack: Cons)
        requires
            old(self)@.wf(),
            old(self)@.allocated(stack.index as int),
        ensures
            final(self)@ == old(self)@.with_stack(stack),
            final(self)@.wf(),
    {
        self.stack = stack;
        proof {
            lemma_wf_registers(old(self)@, self@);
        }
    }

    /// Returns the sentinel for the empty list.
    pub fn null(&self) -> (result: Cons)
        ensures
            result == self@.null,
    {
        self.null
    }

    /// Returns the sentinel for a truth value.
    pub fn boolean(&self, value: bool) -> (result: Cons)
        ensures
            result == self@.boolean(value),
    {
        if value {
            self.yes
        } else {
            self.no
        }
    }

    /// Returns the number of slots in the heap.
    pub fn size(&self) -> (result: usize)
        ensures
            result == self@.heap.len(),
    {
        self.heap.len()
    }

    /// Returns the number of slots in a space.
    pub fn space_size(&self) -> (result: usize)
        ensures
            result == self@.size,
    {
        self.heap.len() / 4 * 2
    }

    /// Returns the number of slots in use in the active space.
    pub fn allocation_index(&self) -> (result: usize)
        ensures
            result == self@.used,
    {
        self.allocation_index
    }

    /// Returns the first slot of the active space.
    pub fn allocation_start(&self) -> (result: usize)
        ensures
            result == self@.start,
    {
        if self.space {
            self.space_size()
        } else {
            0
        }
    }

    /// Returns the slot behind the last one of the active space.
    pub fn allocation_end(&self) -> (result: usize)
        ensures
            result == self@.start + self@.size,
    {
        self.allocation_start() + self.space_size()
    }

    /// Returns the first slot of a cell.
    pub fn car(&self, cons: Cons) -> (result: Value)
        requires
            self@.wf(),
            self@.allocated(cons.index as int),
        ensures
            result == self@.car(cons),
            self@.valid(result),
    {
        proof {
            lemma_valid_slots(self@, cons.index as int);
        }
        self.heap[cons.index]
    }

    /// Returns the second slot of a cell.
    pub fn cdr(&self, cons: Cons) -> (result: Value)
        requires
            self@.wf(),
            self@.allocated(cons.index as int),
        ensures
            result == self@.cdr(cons),
            self@.valid(result),
    {
        proof {
            lemma_valid_slots(self@, cons.index as int);
        }
        self.heap[cons.index + 1]
    }

    /// Returns the first slot of the cell that a value refers to; a number
    /// refers to none.
    pub fn car_value(&self, value: Value) -> (result: Result<Value, Error>)
        requires
            self@.wf(),
            self@.valid(value),
        ensures
            result == match value {
                Value::Cons(cons) => Ok::<Value, Error>(self@.car(cons)),
                Value::Number(_) => Err(Error::ConsExpected),
            },
            result matches Ok(field) ==> self@.valid(field),
    {
        match value {
            Value::Cons(cons) => Ok(self.car(cons)),
            Value::Number(_) => Err(Error::ConsExpected),
        }
    }

    /// Returns the second slot of the cell that a value refers to; a number
    /// refers to none.
    pub fn cdr_value(&self, value: Value) -> (result: Result<Value, Error>)
        requires
            self@.wf(),
            self@.valid(value),
        ensures
            result == match value {
                Value::Cons(cons) => Ok::<Value, Error>(self@.cdr(cons)),
                Value::Number(_) => Err(Error::ConsExpected),
            },
            result matches Ok(field) ==> self@.valid(field),
    {
        match value {
            Value::Cons(cons) => Ok(self.cdr(cons)),
            Value::Number(_) => Err(Error::ConsExpected),
        }
    }

    /// Stores a value in the first slot of a cell.
    pub fn set_car(&mut self, cons: Cons, value: Value)
        requires
            old(self)@.wf(),
            old(self)@.allocated(cons.index as int),
            old(self)@.valid(value),
        ensures
            final(self)@ == old(self)@.with_car(cons, value),
            final(self)@.wf(),
    {
        self.heap[cons.index] = value;
        proof {
            lemma_wf_update(old(self)@, self@, cons.index as int, value);
        }
    }

    /// Stores a value in the second slot of a cell.
    pub fn set_cdr(&mut self, cons: Cons, value: Value)
        requires
            old(self)@.wf(),
            old(self)@.allocated(cons.index as int),
            old(self)@.valid(value),
        ensures
            final(self)@ == old(self)@.with_cdr(cons, value),
            final(self)@.wf(),
    {
        self.heap[cons.index + 1] = value;
        proof {
            lemma_wf_update(old(self)@, self@, cons.index as int + 1, value);
        }
    }

    /// Follows the second slot `index` times from a cell of a list.
    pub fn tail(&self, list: Cons, index: u64) -> (result: Result<Cons, Error>)
        requires
            self@.wf(),
            self@.allocated(list.index as int),
        ensures
            result == match self@.tail(list, index as nat) {
                Some(cons) => Ok::<Cons, Error>(cons),
                None => Err(Error::ConsExpected),
            },
            result matches Ok(cons) ==> self@.allocated(cons.index as int),
    {
        let mut current = list;
        let mut rest = index;

        while rest != 0
            invariant
                self@.wf(),
                self@.allocated(current.index as int),
                self@.tail(current, rest as nat) == self@.tail(list, index as nat),
            decreases rest,
        {
            match self.cdr(current) {
                Value::Cons(next) => {
                    current = next;
                },
                Value::Number(_) => {
                    return Err(Error::ConsExpected);
                },
            }
            rest = rest - 1;
        }
        Ok(current)
    }

    /// Returns the value on top of the stack without popping it.
    pub fn top(&self) -> (result: Result<Value, Error>)
        requires
            self@.wf(),
        ensures
            result == if self@.stack == self@.null {
                Err::<Value, Error>(Error::StackUnderflow)
            } else {
                Ok(self@.car(self@.stack))
            },
            result matches Ok(value) ==> self@.valid(value),
    {
        if self.stack == self.null {
            return Err(Error::StackUnderflow);
        }
        Ok(self.car(self.stack))
    }

    /// Replaces the value on top of the stack.
    pub fn set_top(&mut self, value: Value) -> (result: Result<(), Error>)
        requires
            old(self)@.wf(),
            old(self)@.valid(value),
        ensures
            final(self)@.wf(),
            old(self)@.stack == old(self)@.null ==> result == Err::<(), Error>(
                Error::StackUnderflow,
            ) && final(self)@ == old(self)@,
            old(self)@.stack != old(self)@.null ==> result == Ok::<(), Error>(()) && final(self)@
                == old(self)@.with_car(old(self)@.stack, value),
    {
        if self.stack == self.null {
            return Err(Error::StackUnderflow);
        }
        self.set_car(self.stack, value);
        Ok(())
    }

    /// Pops a value from the stack.  Popping from the empty stack fails, and
    /// so does popping from a stack whose cell has a number for its rest; where
    /// it fails, nothing changes.
    pub fn pop(&mut self) -> (result: Result<Value, Error>)
        requires
            old(self)@.wf(),
        ensures
            result == old(self)@.top_result(),
            final(self)@ == old(self)@.popped(),
            final(self)@.wf(),
            result matches Ok(value) ==> final(self)@.valid(value),
    {
        if self.stack == self.null {
            return Err(Error::StackUnderflow);
        }
        let value = self.car(self.stack);

        match self.cdr(self.stack) {
            Value::Cons(rest) => {
                self.stack = rest;
                proof {
                    assert(old(self)@.allocated(old(self)@.stack.index as int));
                    lemma_wf_registers(old(self)@, self@);
                }
                Ok(value)
            },
            Value::Number(_) => Err(Error::ConsExpected),
        }
    }

    /// Pops `count` values from the stack and returns them with the one
    /// popped first at the end.  At the first pop that fails it stops and
    /// returns that failure; the values popped before stay popped.
    pub fn pop_many(&mut self, count: usize) -> (result: Result<Vec<Value>, Error>)
        requires
            old(self)@.wf(),
        ensures
            final(self)@.wf(),
            final(self)@ == old(self)@.popped_many(count as nat),
            match result {
                Ok(values) => values.len() == count && old(self)@.top_many(count as nat) == Ok::<
                    Seq<Value>,
                    Error,
                >(values@) && forall|i: int|
                    0 <= i < values.len() ==> final(self)@.valid(#[trigger] values[i]),
                Err(error) => old(self)@.top_many(count as nat) == Err::<Seq<Value>, Error>(error),
            },
    {
        let mut popped: Vec<Value> = Vec::new();
        let mut index: usize = 0;

        while index < count
            invariant
                index <= count,
                popped.len() == index,
                self@.wf(),
                self@.size == old(self)@.size,
                forall|i: int| 0 <= i < popped.len() ==> self@.valid(#[trigger] popped[i]),
                old(self)@.popped_many(count as nat) == self@.popped_many((count - index) as nat),
                old(self)@.top_many(count as nat) == match self@.top_many((count - index) as nat) {
                    Ok(values) => Ok::<Seq<Value>, Error>(values + popped@.reverse()),
                    Err(error) => Err(error),
                },
            decreases count - index,
        {
            let ghost before = self@;
            let ghost earlier = popped@;
            match self.pop() {
                Ok(value) => {
                    popped.push(value);
                    proof {
                        assert(popped@.reverse() =~= seq![value] + earlier.reverse());
                        match before.popped().top_many((count - index - 1) as nat) {
                            Ok(values) => {
                                assert(values.push(value) + earlier.reverse() =~= values
                                    + popped@.reverse());
                            },
                            Err(_) => {},
                        }
                    }
                },
                Err(error) => {
                    return Err(error);
                },
            }
            index = index + 1;
        }
        let mut values: Vec<Value> = Vec::new();
        let mut index: usize = count;

        assert(self@.top_many(0) == Ok::<Seq<Value>, Error>(Seq::empty()));
        assert(Seq::<Value>::empty() + popped@.reverse() =~= popped@.reverse());
        while index > 0
            invariant
                index <= count,
                popped.len() == count,
                values@ =~= popped@.reverse().subrange(0, count - index),
                forall|i: int| 0 <= i < popped.len() ==> self@.valid(#[trigger] popped[i]),
            decreases index,
        {
            index = index - 1;
            values.push(popped[index]);
        }
        assert(values@ =~= popped@.reverse());
        Ok(values)
    }

    /// Pops `count` numbers from the stack and returns them with the one
    /// popped first at the end.  The values are popped first, all of them or
    /// up to the first failure; if all were popped and one of them is no
    /// number, it fails.
    pub fn pop_numbers(&mut self, count: usize) -> (result: Result<Vec<Number>, Error>)
        requires
            old(self)@.wf(),
        ensures
            final(self)@.wf(),
            final(self)@ == old(self)@.popped_many(count as nat),
            match old(self)@.top_many(count as nat) {
                Err(error) => result is Err && result->Err_0 == error,
                Ok(values) => if all_numbers(values) {
                    result is Ok && result->Ok_0@ == payloads(values)
                } else {
                    result is Err && result->Err_0 == Error::NumberExpected
                },
            },
    {
        let values = match self.pop_many(count) {
            Ok(values) => values,
            Err(error) => {
                return Err(error);
            },
        };
        let mut numbers: Vec<Number> = Vec::new();
        let mut index: usize = 0;

        while index < values.len()
            invariant
                self@.wf(),
                self@ == old(self)@.popped_many(count as nat),
                old(self)@.top_many(count as nat) == Ok::<Seq<Value>, Error>(values@),
                index <= values.len(),
                numbers.len() == index,
                forall|i: int| 0 <= i < index ==> values[i] == Value::Number(#[trigger] numbers[i]),
            decreases values.len() - index,
        {
            match values[index] {
                Value::Number(number) => {
                    numbers.push(number);
                },
                Value::Cons(_) => {
                    return Err(Error::NumberExpected);
                },
            }
            index = index + 1;
        }
        proof {
            assert forall|i: int| 0 <= i < values@.len() implies #[trigger] values@[i] is Number by {
                assert(values[i] == Value::Number(numbers[i]));
            }
            assert(numbers@ =~= payloads(values@));
        }
        Ok(numbers)
    }

    /// Allocates a cell of two values and returns the untagged reference to
    /// it.  When the active space is full, garbage is collected first; the
    /// registers and the two values follow their cells.  It fails only when
    /// the space is full of live cells.
    pub fn allocate(&mut self, car: Value, cdr: Value) -> (result: Result<Cons, Error>)
        requires
            old(self)@.wf(),
            old(self)@.valid(car),
            old(self)@.valid(cdr),
        ensures
            final(self)@.wf(),
            old(self)@.allocation(car, cdr, final(self)@, result),
            result matches Ok(cons) ==> final(self)@.allocated(cons.index as int) && cons.tag == 0,
            result matches Ok(cons) ==> final(self)@.start <= cons.index && cons.index + 1
                < final(self)@.start + final(self)@.size,
            final(self)@.used <= final(self)@.size,
            result matches Err(error) ==> error == Error::OutOfMemory,
            !old(self)@.full() ==> result == Ok::<Cons, Error>(old(self)@.next()) && final(self)@
                == old(self)@.with_cell(car, cdr),
    {
        proof {
            reveal(MemoryView::allocation);
        }
        if self.allocation_index < self.space_size() {
            proof {
                lemma_wf_with_cell(self@, car, cdr);
            }
            return Ok(self.allocate_raw(car, cdr));
        }
        let ghost before = self@;
        let (car_copy, cdr_copy) = self.collect(car, cdr);
        let ghost mid = self@;

        if self.allocation_index < self.space_size() {
            proof {
                lemma_wf_with_cell(self@, car_copy, cdr_copy);
            }
            Ok(self.allocate_raw(car_copy, cdr_copy))
        } else {
            Err(Error::OutOfMemory)
        }
    }

    /// Makes room for a cell: while the active space has room, nothing
    /// happens; when it is full, garbage is collected, and it fails where the
    /// live cells fill the space.
    pub fn reserve(&mut self) -> (result: Result<(), Error>)
        requires
            old(self)@.wf(),
        ensures
            final(self)@.wf(),
            old(self)@.reserving(final(self)@, result),
            result is Ok <==> !final(self)@.full(),
    {
        if self.allocation_index < self.space_size() {
            return Ok(());
        }
        self.collect_garbages();
        if self.allocation_index < self.space_size() {
            Ok(())
        } else {
            Err(Error::OutOfMemory)
        }
    }

    /// Makes room for a number of cells: while the active space has the
    /// room, nothing happens; else garbage is collected, and it fails where
    /// the live cells leave less.
    pub fn reserve_cells(&mut self, cells: usize) -> (result: Result<(), Error>)
        requires
            old(self)@.wf(),
        ensures
            final(self)@.wf(),
            old(self)@.reserving_cells(cells as nat, final(self)@, result),
            result is Ok <==> final(self)@.room(cells as nat),
    {
        if cells <= (self.space_size() - self.allocation_index) / 2 {
            return Ok(());
        }
        self.collect_garbages();
        if cells <= (self.space_size() - self.allocation_index) / 2 {
            Ok(())
        } else {
            Err(Error::OutOfMemory)
        }
    }

    /// Gives up the cells that were put behind the cells in use of an
    /// earlier memory, where nothing else has changed since: no cell in use
    /// then was written to, no register was moved and nothing was collected.
    pub(crate) fn release(&mut self, used: usize, Ghost(before): Ghost<MemoryView>)
        requires
            before.wf(),
            used == before.used,
            old(self)@.start == before.start,
            old(self)@.size == before.size,
            old(self)@.heap.len() == before.heap.len(),
            old(self)@.used >= before.used,
            old(self)@.code == before.code,
            old(self)@.stack == before.stack,
            old(self)@.no == before.no,
            old(self)@.yes == before.yes,
            old(self)@.null == before.null,
            forall|s: int|
                before.start <= s < before.start + before.used ==> #[trigger] old(self)@.heap[s]
                    == before.heap[s],
        ensures
            final(self)@ == (MemoryView { used: before.used, ..old(self)@ }),
            final(self)@.wf(),
    {
        self.allocation_index = used;
        proof {
            let now = self@;
            assert forall|s: int| now.start <= s < now.start + now.used implies #[trigger] now.valid(
                now.heap[s],
            ) by {
                assert(before.valid(before.heap[s]));
            }
        }
    }

    /// Pushes a value onto the stack: a cell of the value and the stack is
    /// allocated and becomes the stack.
    pub fn push(&mut self, value: Value) -> (result: Result<(), Error>)
        requires
            old(self)@.wf(),
            old(self)@.valid(value),
        ensures
            final(self)@.wf(),
            old(self)@.pushing(value, final(self)@, result),
            result matches Err(error) ==> error == Error::OutOfMemory,
            !old(self)@.full() ==> result == Ok::<(), Error>(()) && final(self)@ == old(self)@.pushed(value),
    {
        proof {
            reveal(MemoryView::allocation);
        }
        let ghost before = self@;
        let cell = self.allocate(value, Value::Cons(self.stack));
        let ghost mid = self@;

        proof {
            reveal(MemoryView::pushing);
        }
        match cell {
            Ok(cons) => {
                self.stack = cons;
                proof {
                    lemma_wf_registers(mid, self@);
                }
                Ok(())
            },
            Err(error) => Err(error),
        }
    }

    /// Collects garbage: copies the cells that can be reached from the
    /// registers into the other space, makes that space the active one and
    /// lets the registers follow.  References keep their tags, and cells that
    /// were shared or lay on a cycle are copied once.
    pub fn collect_garbages(&mut self)
        requires
            old(self)@.wf(),
        ensures
            final(self)@.wf(),
            exists|r: Relocation| #[trigger]
                old(self)@.collected(
                    Value::Number(Number(0)),
                    Value::Number(Number(0)),
                    r,
                    final(self)@,
                ),
    {
        let zero = Value::Number(Number::new(0));
        let _ = self.collect(zero, zero);
    }

    /// Collects garbage with two more values as roots, and returns what has
    /// become of the two.
    fn collect(&mut self, x: Value, y: Value) -> (result: (Value, Value))
        requires
            old(self)@.wf(),
            old(self)@.valid(x),
            old(self)@.valid(y),
        ensures
            final(self)@.wf(),
            final(self)@.valid(result.0),
            final(self)@.valid(result.1),
            exists|r: Relocation|
                {
                    &&& old(self)@.collected(x, y, r, final(self)@)
                    &&& covers(r, x)
                    &&& covers(r, y)
                    &&& result.0 == relocate(r, x)
                    &&& result.1 == relocate(r, y)
                },
    {
        let ghost before = self@;
        let ghost roots = before.registers().union(value_roots(x, y));

        self.allocation_index = 0;
        self.space = !self.space;

        let start = self.allocation_start();
        let ghost mut state = Copying { forward: Map::empty(), origin: Seq::empty() };

        proof {
            assert forall|i: int| before.allocated(i) implies #[trigger] cell_left(
                before.heap,
                self.heap@,
                state.forward,
                i,
            ) by {}
            lemma_root_reachable(before, roots, before.code.index as int);
            lemma_root_reachable(before, roots, before.stack.index as int);
            lemma_root_reachable(before, roots, before.no.index as int);
            lemma_root_reachable(before, roots, before.yes.index as int);
            lemma_root_reachable(before, roots, before.null.index as int);
        }
        let (code, Ghost(next)) = self.copy_cons(
            self.code,
            Ghost(before),
            Ghost(roots),
            Ghost(state),
            Ghost(start as int),
        );
        self.code = code;
        proof {
            state = next;
        }
        let (stack, Ghost(next)) = self.copy_cons(
            self.stack,
            Ghost(before),
            Ghost(roots),
            Ghost(state),
            Ghost(start as int),
        );
        self.stack = stack;
        proof {
            state = next;
        }
        let (no, Ghost(next)) = self.copy_cons(
            self.no,
            Ghost(before),
            Ghost(roots),
            Ghost(state),
            Ghost(start as int),
        );
        self.no = no;
        proof {
            state = next;
        }
        let (yes, Ghost(next)) = self.copy_cons(
            self.yes,
            Ghost(before),
            Ghost(roots),
            Ghost(state),
            Ghost(start as int),
        );
        self.yes = yes;
        proof {
            state = next;
        }
        let (null, Ghost(next)) = self.copy_cons(
            self.null,
            Ghost(before),
            Ghost(roots),
            Ghost(state),
            Ghost(start as int),
        );
        self.null = null;
        proof {
            state = next;
        }
        proof {
            if let Value::Cons(c) = x {
                lemma_root_reachable(before, roots, c.index as int);
            }
            if let Value::Cons(c) = y {
                lemma_root_reachable(before, roots, c.index as int);
            }
        }
        let (x_copy, Ghost(next)) = self.copy_value(
            x,
            Ghost(before),
            Ghost(roots),
            Ghost(state),
            Ghost(start as int),
        );
        proof {
            state = next;
        }
        let (y_copy, Ghost(next)) = self.copy_value(
            y,
            Ghost(before),
            Ghost(roots),
            Ghost(state),
            Ghost(start as int),
        );
        proof {
            state = next;
        }

        let mut index = start;

        while index < start + self.allocation_index
            invariant
                before.wf(),
                before.valid(x),
                before.valid(y),
                roots == before.registers().union(value_roots(x, y)),
                start == self@.start,
                self.copying(before, roots, state, index as int),
                registers_copied(before, self@, state.forward),
                covers(state.forward, x),
                covers(state.forward, y),
                x_copy == relocate(state.forward, x),
                y_copy == relocate(state.forward, y),
            decreases start + self@.size - index,
        {
            let ghost k = (index - start) / 2;
            let ghost d = (index - start) % 2;
            let value = self.heap[index];
            proof {
                assert(copy_made(before, roots, self.heap@, start as int, state, index as int, k));
                lemma_valid_slots(before, state.origin[k]);
                if let Value::Cons(c) = value {
                    lemma_reach_step(before, roots, state.origin[k], c.index as int);
                }
            }
            let (copy, Ghost(next)) = self.copy_value(
                value,
                Ghost(before),
                Ghost(roots),
                Ghost(state),
                Ghost(index as int),
            );
            let ghost earlier = self.heap@;
            self.heap[index] = copy;
            proof {
                assert(next.origin[k] == state.origin[k]);
                assert(copy_made(before, roots, earlier, start as int, next, index as int, k));
                lemma_scanned(
                    before,
                    roots,
                    earlier,
                    self.heap@,
                    start as int,
                    self@.used,
                    next,
                    index as int,
                    copy,
                );
                state = next;
            }
            index = index + 1;
        }
        proof {
            lemma_collection_moved(before, roots, self@, state);
            lemma_collection_exact(before, x, y, self@, state);
        }
        (x_copy, y_copy)
    }

    /// The heap is in the middle of a collection of the memory `before`:
    /// `state` records which of its cells were copied and where to, and the
    /// slots of the copies in front of the slot `scan` hold what has become of
    /// the slots that they were copied from.
    spec fn copying(&self, before: MemoryView, roots: Set<int>, state: Copying, scan: int) -> bool {
        &&& before.wf()
        &&& self@.layout()
        &&& self@.size == before.size
        &&& self@.heap.len() == before.heap.len()
        &&& self@.start == before.size - before.start
        &&& copying_heap(before, roots, self.heap@, self@.start, self@.used, state, scan)
    }

    /// Copies the cell that a reference refers to into the active space,
    /// unless that was done before, and returns the reference to the copy.
    fn copy_cons(
        &mut self,
        cons: Cons,
        Ghost(before): Ghost<MemoryView>,
        Ghost(roots): Ghost<Set<int>>,
        Ghost(state): Ghost<Copying>,
        Ghost(scan): Ghost<int>,
    ) -> (result: (Cons, Ghost<Copying>))
        requires
            old(self).copying(before, roots, state, scan),
            before.allocated(cons.index as int),
            before.reachable(roots, cons.index as int),
        ensures
            final(self).copying(before, roots, result.1@, scan),
            extends(state, result.1@),
            result.1@.forward.dom().contains(cons.index as int),
            result.0 == relocate_cons(result.1@.forward, cons),
            copied_cell(old(self)@, state, Value::Cons(cons), final(self)@, result.1@),
            final(self)@.code == old(self)@.code,
            final(self)@.stack == old(self)@.stack,
            final(self)@.no == old(self)@.no,
            final(self)@.yes == old(self)@.yes,
            final(self)@.null == old(self)@.null,
    {
        let car = self.heap[cons.index];
        let cdr = self.heap[cons.index + 1];
        let ghost i = cons.index as int;

        proof {
            assert(cell_left(before.heap, self.heap@, state.forward, i));
            lemma_valid_slots(before, i);
        }
        if car == copied_mark() {
            match cdr {
                Value::Cons(copy) => (copy.set_tag(cons.tag), Ghost(state)),
                Value::Number(_) => (cons, Ghost(state)),
            }
        } else {
            let ghost next = Copying {
                forward: state.forward.insert(i, self@.start + self@.used),
                origin: state.origin.push(i),
            };
            proof {
                lemma_room(before, roots, self.heap@, self@.start, self@.used, state, scan, i);
            }
            let ghost earlier = self.heap@;
            let ghost to = self@.start;
            let ghost used = self@.used;
            let copy = self.allocate_raw(car, cdr);

            self.heap[cons.index] = copied_mark();
            self.heap[cons.index + 1] = Value::Cons(copy);
            proof {
                lemma_copied(before, roots, earlier, self.heap@, to, used, state, next, scan, i);
            }
            (copy.set_tag(cons.tag), Ghost(next))
        }
    }

    /// Copies the cell that a value refers to, if it refers to one, and
    /// returns what has become of the value.
    fn copy_value(
        &mut self,
        value: Value,
        Ghost(before): Ghost<MemoryView>,
        Ghost(roots): Ghost<Set<int>>,
        Ghost(state): Ghost<Copying>,
        Ghost(scan): Ghost<int>,
    ) -> (result: (Value, Ghost<Copying>))
        requires
            old(self).copying(before, roots, state, scan),
            before.valid(value),
            value matches Value::Cons(c) ==> before.reachable(roots, c.index as int),
        ensures
            final(self).copying(before, roots, result.1@, scan),
            extends(state, result.1@),
            covers(result.1@.forward, value),
            result.0 == relocate(result.1@.forward, value),
            copied_cell(old(self)@, state, value, final(self)@, result.1@),
            final(self)@.code == old(self)@.code,
            final(self)@.stack == old(self)@.stack,
            final(self)@.no == old(self)@.no,
            final(self)@.yes == old(self)@.yes,
            final(self)@.null == old(self)@.null,
    {
        match value {
            Value::Cons(cons) => {
                let (copy, next) = self.copy_cons(
                    cons,
                    Ghost(before),
                    Ghost(roots),
                    Ghost(state),
                    Ghost(scan),
                );
                (Value::Cons(copy), next)
            },
            Value::Number(_) => (value, Ghost(state)),
        }
    }

    /// Returns the text of the memory: a line for each cell in use, with its
    /// two slots.
    pub fn to_string(&self) -> (result: String)
        requires
            self@.wf(),
        ensures
            result@ == self@.text(),
    {
        let mut result = String::new();
        let mut index: usize = 0;
        let start = self.allocation_start();

        assert(result@ =~= self@.cells_text(0));
        while index < self.allocation_index / 2
            invariant
                self@.wf(),
                start == self@.start,
                index <= self.allocation_index / 2,
                result@ == self@.cells_text(index as nat),
            decreases self.allocation_index / 2 - index,
        {
            let ghost before = result@;

            self.heap[start + 2 * index].write(&mut result);
            result.push_str(" ");
            self.heap[start + 2 * index + 1].write(&mut result);
            result.push_str("\n");
            index = index + 1;
            assert(result@ =~= self@.cells_text(index as nat));
        }
        result
    }

    /// Puts a cell behind the cells in use.
    fn allocate_raw(&mut self, car: Value, cdr: Value) -> (result: Cons)
        requires
            old(self)@.layout(),
            old(self)@.used + 2 <= old(self)@.size,
        ensures
            final(self)@ == old(self)@.with_cell(car, cdr),
            result == old(self)@.next(),
            final(self)@.layout(),
    {
        let index = self.allocation_start() + self.allocation_index;

        self.heap[index] = car;
        self.heap[index + 1] = cdr;
        self.allocation_index = self.allocation_index + CONS_FIELD_COUNT;

        Cons::new(index)
    }
}

/// What stands in the first slot of a cell that a collection has copied.  It
/// refers to no cell in use, so no slot of a well-formed memory holds it.
pub open spec fn copied() -> Value {
    Value::Cons(Cons { index: usize::MAX, tag: 0 })
}

/// Returns the mark of a copied cell.
fn copied_mark() -> (result: Value)
    ensures
        result == copied(),
{
    Value::Cons(Cons { index: usize::MAX, tag: 0 })
}

/// The record of a collection in progress.
pub ghost struct Copying {
    /// Where each copied cell went.
    pub forward: Relocation,
    /// Where each copy came from, in the order in which the copies were
    /// made.
    pub origin: Seq<int>,
}

/// What copying a value makes of the slots in use and of the record.  A
/// value that refers to a cell that was not copied takes a cell: the slots in
/// use grow by two, the copy stands behind the cells that were in use and
/// holds what the cell held, the cell holds the mark and the reference to its
/// copy, and the record holds where the cell went.  A number, and a value
/// whose cell was copied before, leave the memory and the record as they
/// were.
pub open spec fn copied_cell(
    memory: MemoryView,
    state: Copying,
    value: Value,
    new: MemoryView,
    next: Copying,
) -> bool {
    match value {
        Value::Cons(cons) => if state.forward.dom().contains(cons.index as int) {
            new == memory && next == state
        } else {
            &&& new.used == memory.used + 2
            &&& new.start == memory.start
            &&& new.size == memory.size
            &&& next.forward == state.forward.insert(cons.index as int, memory.start + memory.used)
            &&& next.origin == state.origin.push(cons.index as int)
            &&& new.heap == memory.heap.update(
                memory.start + memory.used,
                memory.heap[cons.index as int],
            ).update(memory.start + memory.used + 1, memory.heap[cons.index as int + 1]).update(
                cons.index as int,
                copied(),
            ).update(
                cons.index as int + 1,
                Value::Cons(Cons { index: (memory.start + memory.used) as usize, tag: 0 }),
            )
        },
        Value::Number(_) => new == memory && next == state,
    }
}

/// The second record holds what the first holds.
spec fn extends(first: Copying, second: Copying) -> bool {
    &&& forall|i: int| #[trigger]
        first.forward.dom().contains(i) ==> second.forward.dom().contains(i) && second.forward[i]
            == first.forward[i]
    &&& first.origin.len() <= second.origin.len()
    &&& forall|k: int|
        0 <= k < first.origin.len() ==> #[trigger] second.origin[k] == first.origin[k]
}

/// A slot `target` of a copy against the slot `source` that it was copied
/// from: in front of `scan` it holds what has become of the value, behind it
/// the value itself.
spec fn slot_copied(
    before: Seq<Value>,
    heap: Seq<Value>,
    forward: Relocation,
    source: int,
    target: int,
    scan: int,
) -> bool {
    if target < scan {
        covers(forward, before[source]) && heap[target] == relocate(forward, before[source])
    } else {
        heap[target] == before[source]
    }
}

/// A cell of the space that is being left: copied, it holds the mark and the
/// reference to its copy; else what it held.
spec fn cell_left(before: Seq<Value>, heap: Seq<Value>, forward: Relocation, i: int) -> bool {
    if forward.dom().contains(i) {
        heap[i] == copied() && heap[i + 1] == Value::Cons(
            Cons { index: forward[i] as usize, tag: 0 },
        )
    } else {
        heap[i] == before[i] && heap[i + 1] == before[i + 1]
    }
}

/// The copy `k` is what it should be: it was made of a cell in use that can
/// be reached, the record holds where that cell went, and the two slots of the
/// copy are copied.
spec fn copy_made(
    before: MemoryView,
    roots: Set<int>,
    heap: Seq<Value>,
    to: int,
    state: Copying,
    scan: int,
    k: int,
) -> bool {
    let i = state.origin[k];
    &&& before.allocated(i)
    &&& state.forward.dom().contains(i)
    &&& state.forward[i] == to + 2 * k
    &&& before.reachable(roots, i)
    &&& slot_copied(before.heap, heap, state.forward, i, to + 2 * k, scan)
    &&& slot_copied(before.heap, heap, state.forward, i + 1, to + 2 * k + 1, scan)
}

/// A cell in the record went to a copy that was made of it.
spec fn forward_sound(state: Copying, to: int, used: int, i: int) -> bool {
    let target = state.forward[i];
    &&& to <= target < to + used
    &&& (target - to) % 2 == 0
    &&& state.origin[(target - to) / 2] == i
}

/// The state of the heap in the middle of a collection.
spec fn copying_heap(
    before: MemoryView,
    roots: Set<int>,
    heap: Seq<Value>,
    to: int,
    used: int,
    state: Copying,
    scan: int,
) -> bool {
    &&& used == 2 * state.origin.len()
    &&& to <= scan <= to + used
    &&& forall|k: int|
        0 <= k < state.origin.len() ==> #[trigger] copy_made(before, roots, heap, to, state, scan, k)
    &&& forall|i: int|
        state.forward.dom().contains(i) ==> #[trigger] forward_sound(state, to, used, i)
    &&& forall|i: int|
        before.allocated(i) ==> #[trigger] cell_left(before.heap, heap, state.forward, i)
}

/// The registers refer to the copies of the cells that they referred to.
spec fn registers_copied(before: MemoryView, now: MemoryView, forward: Relocation) -> bool {
    &&& forward.dom().contains(before.code.index as int)
    &&& forward.dom().contains(before.stack.index as int)
    &&& forward.dom().contains(before.no.index as int)
    &&& forward.dom().contains(before.yes.index as int)
    &&& forward.dom().contains(before.null.index as int)
    &&& now.code == relocate_cons(forward, before.code)
    &&& now.stack == relocate_cons(forward, before.stack)
    &&& now.no == relocate_cons(forward, before.no)
    &&& now.yes == relocate_cons(forward, before.yes)
    &&& now.null == relocate_cons(forward, before.null)
}

/// A root can be reached.
proof fn lemma_root_reachable(memory: MemoryView, roots: Set<int>, i: int)
    requires
        roots.contains(i),
    ensures
        memory.reachable(roots, i),
{
    assert(memory.is_path(roots, seq![i]));
}

/// What a reachable cell refers to can be reached.
proof fn lemma_reach_step(memory: MemoryView, roots: Set<int>, i: int, j: int)
    requires
        memory.reachable(roots, i),
        memory.points_to(i, j),
    ensures
        memory.reachable(roots, j),
{
    let path = choose|path: Seq<int>| #[trigger] memory.is_path(roots, path) && path.last() == i;
    let longer = path.push(j);
    assert forall|k: int| 0 < k < longer.len() implies memory.points_to(
        #[trigger] longer[k - 1],
        longer[k],
    ) by {
        if k < path.len() {
            assert(memory.points_to(path[k - 1], path[k]));
        }
    }
    assert(memory.is_path(roots, longer));
}

/// A set of cells that holds the roots and, with a cell, what it refers to,
/// holds every cell at the end of a path.
proof fn lemma_closed_holds_path(memory: MemoryView, roots: Set<int>, cells: Set<int>, path: Seq<int>)
    requires
        roots.subset_of(cells),
        forall|i: int, j: int| cells.contains(i) && #[trigger] memory.points_to(i, j) ==> cells.contains(j),
        memory.is_path(roots, path),
    ensures
        cells.contains(path.last()),
    decreases path.len(),
{
    if path.len() > 1 {
        let shorter = path.drop_last();
        assert forall|k: int| 0 < k < shorter.len() implies memory.points_to(
            #[trigger] shorter[k - 1],
            shorter[k],
        ) by {
            assert(memory.points_to(path[k - 1], path[k]));
        }
        assert(memory.is_path(roots, shorter));
        lemma_closed_holds_path(memory, roots, cells, shorter);
        let n = path.len() as int;
        assert(memory.points_to(path[n - 1 - 1], path[n - 1]));
    }
}

/// Different numbers below a bound are at most as many as the bound.
proof fn lemma_distinct_below(numbers: Seq<int>, bound: int)
    requires
        0 <= bound,
        numbers.no_duplicates(),
        forall|k: int| 0 <= k < numbers.len() ==> 0 <= #[trigger] numbers[k] < bound,
    ensures
        numbers.len() <= bound,
{
    if numbers.len() > 0 {
        assert(0 <= numbers[0] < bound);
        numbers.unique_seq_to_set();
        vstd::set_lib::lemma_int_range(0, bound);
        let range = vstd::set_lib::set_int_range(0, bound);
        assert forall|x: int| numbers.to_set().contains(x) implies range.contains(x) by {
            let k = choose|k: int| 0 <= k < numbers.len() && numbers[k] == x;
            assert(0 <= numbers[k] < bound);
        }
        vstd::set_lib::lemma_len_subset(numbers.to_set(), range);
    }
}

/// Different cells in use are at most as many as the space holds.
proof fn lemma_copies_fit(before: MemoryView, cells: Seq<int>)
    requires
        before.layout(),
        forall|k: int| 0 <= k < cells.len() ==> before.allocated(#[trigger] cells[k]),
        cells.no_duplicates(),
    ensures
        2 * cells.len() <= before.used,
{
    let numbers = Seq::new(cells.len(), |k: int| (cells[k] - before.start) / 2);
    assert forall|k: int, l: int| 0 <= k < numbers.len() && 0 <= l < numbers.len() && k
        != l implies numbers[k] != numbers[l] by {
        assert(before.allocated(cells[k]));
        assert(before.allocated(cells[l]));
        assert(cells[k] != cells[l]);
    }
    assert forall|k: int| 0 <= k < numbers.len() implies 0 <= #[trigger] numbers[k] < before.used
        / 2 by {
        assert(before.allocated(cells[k]));
    }
    lemma_distinct_below(numbers, before.used / 2);
}

/// The copies were made of different cells.
proof fn lemma_origins_differ(
    before: MemoryView,
    roots: Set<int>,
    heap: Seq<Value>,
    to: int,
    used: int,
    state: Copying,
    scan: int,
)
    requires
        copying_heap(before, roots, heap, to, used, state, scan),
    ensures
        state.origin.no_duplicates(),
        forall|k: int| 0 <= k < state.origin.len() ==> before.allocated(#[trigger] state.origin[k]),
        forall|k: int|
            0 <= k < state.origin.len() ==> state.forward.dom().contains(#[trigger] state.origin[k]),
{
    assert forall|k: int| 0 <= k < state.origin.len() implies before.allocated(
        #[trigger] state.origin[k],
    ) && state.forward.dom().contains(state.origin[k]) by {
        assert(copy_made(before, roots, heap, to, state, scan, k));
    }
    assert forall|k: int, l: int|
        0 <= k < state.origin.len() && 0 <= l < state.origin.len() && k != l implies state.origin[k]
        != state.origin[l] by {
        assert(copy_made(before, roots, heap, to, state, scan, k));
        assert(copy_made(before, roots, heap, to, state, scan, l));
    }
}

/// While a cell in use is not copied, the active space has room for its
/// copy.
proof fn lemma_room(
    before: MemoryView,
    roots: Set<int>,
    heap: Seq<Value>,
    to: int,
    used: int,
    state: Copying,
    scan: int,
    i: int,
)
    requires
        before.layout(),
        copying_heap(before, roots, heap, to, used, state, scan),
        before.allocated(i),
        !state.forward.dom().contains(i),
    ensures
        used + 2 <= before.used,
{
    lemma_origins_differ(before, roots, heap, to, used, state, scan);
    let cells = state.origin.push(i);
    assert forall|k: int, l: int| 0 <= k < cells.len() && 0 <= l < cells.len() && k
        != l implies cells[k] != cells[l] by {
        if k < state.origin.len() && l < state.origin.len() {
            assert(state.origin[k] != state.origin[l]);
        } else if k < state.origin.len() {
            assert(state.forward.dom().contains(state.origin[k]));
        } else {
            assert(state.forward.dom().contains(state.origin[l]));
        }
    }
    assert forall|k: int| 0 <= k < cells.len() implies before.allocated(#[trigger] cells[k]) by {
        if k < state.origin.len() {
            assert(cells[k] == state.origin[k]);
        }
    }
    lemma_copies_fit(before, cells);
}

/// Copying a cell that was not copied keeps the state of the collection.
proof fn lemma_copied(
    before: MemoryView,
    roots: Set<int>,
    earlier: Seq<Value>,
    heap: Seq<Value>,
    to: int,
    used: int,
    state: Copying,
    next: Copying,
    scan: int,
    i: int,
)
    requires
        before.wf(),
        to == before.size - before.start,
        to + used + 2 <= earlier.len(),
        earlier.len() == before.heap.len(),
        used + 2 <= before.size,
        copying_heap(before, roots, earlier, to, used, state, scan),
        before.allocated(i),
        before.reachable(roots, i),
        !state.forward.dom().contains(i),
        next == (Copying {
            forward: state.forward.insert(i, to + used),
            origin: state.origin.push(i),
        }),
        heap == earlier.update(to + used, earlier[i]).update(to + used + 1, earlier[i + 1]).update(
            i,
            copied(),
        ).update(i + 1, Value::Cons(Cons { index: (to + used) as usize, tag: 0 })),
    ensures
        copying_heap(before, roots, heap, to, used + 2, next, scan),
        extends(state, next),
{
    assert(cell_left(before.heap, earlier, state.forward, i));
    assert forall|k: int| 0 <= k < next.origin.len() implies #[trigger] copy_made(
        before,
        roots,
        heap,
        to,
        next,
        scan,
        k,
    ) by {
        if k < state.origin.len() {
            assert(copy_made(before, roots, earlier, to, state, scan, k));
            assert(next.origin[k] == state.origin[k]);
        } else {
            assert(next.origin[k] == i);
        }
    }
    assert forall|j: int| next.forward.dom().contains(j) implies #[trigger] forward_sound(
        next,
        to,
        used + 2,
        j,
    ) by {
        if j != i {
            assert(forward_sound(state, to, used, j));
        }
    }
    assert forall|j: int| before.allocated(j) implies #[trigger] cell_left(
        before.heap,
        heap,
        next.forward,
        j,
    ) by {
        assert(cell_left(before.heap, earlier, state.forward, j));
    }
}

/// Storing what has become of the value at the slot `scan` moves the scan
/// on by one slot.
proof fn lemma_scanned(
    before: MemoryView,
    roots: Set<int>,
    earlier: Seq<Value>,
    heap: Seq<Value>,
    to: int,
    used: int,
    state: Copying,
    scan: int,
    copy: Value,
)
    requires
        before.wf(),
        to == before.size - before.start,
        earlier.len() == before.heap.len(),
        used <= before.size,
        copying_heap(before, roots, earlier, to, used, state, scan),
        scan < to + used,
        covers(state.forward, earlier[scan]),
        copy == relocate(state.forward, earlier[scan]),
        heap == earlier.update(scan, copy),
    ensures
        copying_heap(before, roots, heap, to, used, state, scan + 1),
{
    assert forall|k: int| 0 <= k < state.origin.len() implies #[trigger] copy_made(
        before,
        roots,
        heap,
        to,
        state,
        scan + 1,
        k,
    ) by {
        assert(copy_made(before, roots, earlier, to, state, scan, k));
    }
    assert forall|j: int| state.forward.dom().contains(j) implies #[trigger] forward_sound(
        state,
        to,
        used,
        j,
    ) by {
        assert(forward_sound(state, to, used, j));
    }
    assert forall|j: int| before.allocated(j) implies #[trigger] cell_left(
        before.heap,
        heap,
        state.forward,
        j,
    ) by {
        assert(cell_left(before.heap, earlier, state.forward, j));
        assert(j != scan && j + 1 != scan);
    }
}

/// At the end of a collection, when every slot of every copy has been
/// scanned, the record carries the memory before over into the memory now,
/// which is well formed.
proof fn lemma_collection_moved(before: MemoryView, roots: Set<int>, now: MemoryView, state: Copying)
    requires
        before.wf(),
        now.layout(),
        now.size == before.size,
        now.heap.len() == before.heap.len(),
        now.start == before.size - before.start,
        copying_heap(before, roots, now.heap, now.start, now.used, state, now.start + now.used),
        registers_copied(before, now, state.forward),
    ensures
        now.wf(),
        before.moved(state.forward, now),
        forall|j: int| #[trigger] now.allocated(j) ==> state.forward.contains_value(j),
        forall|v: Value| covers(state.forward, v) ==> #[trigger] now.valid(relocate(state.forward, v)),
{
    let r = state.forward;
    let to = now.start;
    let end = now.start + now.used;
    assert forall|i: int| r.dom().contains(i) implies #[trigger] before.cell_moved(r, now, i) by {
        assert(forward_sound(state, to, now.used, i));
        let k = (r[i] - to) / 2;
        assert(copy_made(before, roots, now.heap, to, state, end, k));
    }
    assert forall|i: int, j: int|
        r.dom().contains(i) && r.dom().contains(j) && #[trigger] r[i] == #[trigger] r[j] implies i
        == j by {
        assert(forward_sound(state, to, now.used, i));
        assert(forward_sound(state, to, now.used, j));
    }
    assert forall|v: Value| covers(r, v) implies #[trigger] now.valid(relocate(r, v)) by {
        if let Value::Cons(c) = v {
            assert(forward_sound(state, to, now.used, c.index as int));
        }
    }
    assert forall|j: int| #[trigger] now.allocated(j) implies r.contains_value(j) by {
        let k = (j - to) / 2;
        assert(copy_made(before, roots, now.heap, to, state, end, k));
        assert(r.dom().contains(state.origin[k]) && r[state.origin[k]] == j);
    }
    assert forall|s: int| now.start <= s < now.start + now.used implies #[trigger] now.valid(
        now.heap[s],
    ) by {
        let k = (s - to) / 2;
        assert(copy_made(before, roots, now.heap, to, state, end, k));
        if (s - to) % 2 == 0 {
            assert(now.valid(relocate(r, before.heap[state.origin[k]])));
        } else {
            assert(now.valid(relocate(r, before.heap[state.origin[k] + 1])));
        }
    }
    assert(now.allocated(now.code.index as int)) by {
        assert(forward_sound(state, to, now.used, before.code.index as int));
    }
    assert(now.allocated(now.stack.index as int)) by {
        assert(forward_sound(state, to, now.used, before.stack.index as int));
    }
    assert(now.allocated(now.no.index as int)) by {
        assert(forward_sound(state, to, now.used, before.no.index as int));
    }
    assert(now.allocated(now.yes.index as int)) by {
        assert(forward_sound(state, to, now.used, before.yes.index as int));
    }
    assert(now.allocated(now.null.index as int)) by {
        assert(forward_sound(state, to, now.used, before.null.index as int));
    }
}

/// At the end of a collection the record is defined on exactly the live
/// cells, and the slots in use are two for each of them.
proof fn lemma_collection_exact(before: MemoryView, x: Value, y: Value, now: MemoryView, state: Copying)
    requires
        before.wf(),
        now.start == before.size - before.start,
        copying_heap(
            before,
            before.registers().union(value_roots(x, y)),
            now.heap,
            now.start,
            now.used,
            state,
            now.start + now.used,
        ),
        registers_copied(before, now, state.forward),
        covers(state.forward, x),
        covers(state.forward, y),
    ensures
        state.forward.dom() == before.live(x, y),
        now.used == 2 * before.live(x, y).len(),
{
    let roots = before.registers().union(value_roots(x, y));
    let r = state.forward;
    let to = now.start;
    let end = now.start + now.used;
    assert(roots.subset_of(r.dom()));
    assert forall|i: int, j: int| r.dom().contains(i) && #[trigger] before.points_to(i, j) implies r.dom().contains(j) by {
        assert(forward_sound(state, to, now.used, i));
        let k = (r[i] - to) / 2;
        assert(copy_made(before, roots, now.heap, to, state, end, k));
    }
    assert forall|i: int| before.live(x, y).contains(i) implies r.dom().contains(i) by {
        let path = choose|path: Seq<int>| #[trigger]
            before.is_path(roots, path) && path.last() == i;
        lemma_closed_holds_path(before, roots, r.dom(), path);
    }
    assert forall|i: int| r.dom().contains(i) implies before.live(x, y).contains(i) by {
        assert(forward_sound(state, to, now.used, i));
        let k = (r[i] - to) / 2;
        assert(copy_made(before, roots, now.heap, to, state, end, k));
    }
    assert(r.dom() =~= before.live(x, y));
    lemma_origins_differ(before, roots, now.heap, to, now.used, state, end);
    state.origin.unique_seq_to_set();
    assert(state.origin.to_set() =~= r.dom()) by {
        assert forall|i: int| r.dom().contains(i) implies state.origin.to_set().contains(i) by {
            assert(forward_sound(state, to, now.used, i));
            let k = (r[i] - to) / 2;
            assert(state.origin[k] == i);
        }
    }
}

/// All values of a sequence are numbers.
pub open spec fn all_numbers(values: Seq<Value>) -> bool {
    forall|i: int| 0 <= i < values.len() ==> #[trigger] values[i] is Number
}

/// The numbers that the values of a sequence hold.
pub open spec fn payloads(values: Seq<Value>) -> Seq<Number> {
    Seq::new(values.len(), |i: int| values[i]->Number_0)
}

} // verus!
