use super::cons::Cons;
use super::error::Error;
use super::instruction::{APPLY, CONSTANT, FRAME_TAG, GET, HALT, IF, NOP, SET, SKIP};
use super::memory::Memory;
use super::model::MemoryView;
use super::number::Number;
use super::semantics::Call;
use super::value::Value;
use vstd::prelude::*;

verus! {

/// A set of primitives: the operations that a program applies by number.
pub trait PrimitiveSet: Sized {
    /// What the primitive of a number may make of the set and of a memory,
    /// and return.  Of a set that does not say, anything that leaves the
    /// memory well formed.
    open spec fn operation(
        self,
        memory: MemoryView,
        primitive: u64,
        after: Self,
        new: MemoryView,
        result: Result<(), Error>,
    ) -> bool {
        true
    }

    /// Runs the primitive of a number on a memory.
    fn operate(&mut self, memory: &mut Memory, primitive: u64) -> (result: Result<(), Error>)
        requires
            old(memory)@.wf(),
        ensures
            final(memory)@.wf(),
            (*old(self)).operation(old(memory)@, primitive, *final(self), final(memory)@, result),
    ;
}

/// A virtual machine: a memory and the set of primitives that its programs
/// apply.
pub struct Vm<T: PrimitiveSet> {
    pub primitive_set: T,
    pub memory: Memory,
}

/// What one instruction makes of a set of primitives and a memory, and what
/// it returns: whether it ended the run.
///
/// An instruction that applies a number runs the primitive of that number
/// and then returns to the caller, after a tail call, or moves on.  An
/// instruction that needs room for a cell makes room first, which collects
/// garbage where the space is full, and fails where that leaves none.  Every
/// other instruction is a function of the memory.
pub open spec fn stepping<T: PrimitiveSet>(
    primitives: T,
    memory: MemoryView,
    after: T,
    new: MemoryView,
    result: Result<bool, Error>,
) -> bool {
    match memory.primitive() {
        Some(primitive) => exists|mid: MemoryView, done: Result<(), Error>|
            {
                &&& #[trigger] primitives.operation(memory, primitive.0, after, mid, done)
                &&& mid.wf()
                &&& match done {
                    Err(error) => new == mid && result == Err::<bool, Error>(error),
                    Ok(_) => (new, result) == mid.resumed(memory.is_tail()),
                }
            },
        None => after == primitives && if memory.needs_room() {
            exists|mid: MemoryView, done: Result<(), Error>|
                {
                    &&& #[trigger] memory.reserving(mid, done)
                    &&& mid.wf()
                    &&& match done {
                        Err(error) => new == mid && result == Err::<bool, Error>(error),
                        Ok(_) => (new, result) == mid.step(),
                    }
                }
        } else {
            (new, result) == memory.step()
        },
    }
}

/// What a run of at most `limit` instructions makes of a set of primitives
/// and a memory, and what it returns: the instructions are run one after
/// another until one ends the run or fails, or as many as the limit were run.
pub open spec fn running<T: PrimitiveSet>(
    primitives: T,
    memory: MemoryView,
    limit: nat,
    after: T,
    new: MemoryView,
    result: Result<bool, Error>,
) -> bool
    decreases limit,
{
    if limit == 0 {
        after == primitives && new == memory && result == Ok::<bool, Error>(false)
    } else {
        exists|next: T, mid: MemoryView, done: Result<bool, Error>|
            {
                &&& #[trigger] stepping(primitives, memory, next, mid, done)
                &&& mid.wf()
                &&& if done == Ok::<bool, Error>(false) {
                    running(next, mid, (limit - 1) as nat, after, new, result)
                } else {
                    after == next && new == mid && result == done
                }
            }
    }
}

impl<T: PrimitiveSet> Vm<T> {
    /// Makes a heap and a set of primitives into a machine.  The stack is
    /// empty, and the program is the one instruction that ends a run.  The heap
    /// must hold four cells in each of its two spaces.
    pub fn new(heap: Vec<Value>, primitive_set: T) -> (result: Result<Self, Error>)
        ensures
            result is Ok <==> heap.len() >= 16,
            match result {
                Ok(vm) => {
                    let initial = MemoryView::initial(heap@);
                    &&& vm.primitive_set == primitive_set
                    &&& vm.memory@.wf()
                    &&& vm.memory@ == initial.with_cell(
                        Value::Number(Number(0)),
                        Value::Cons(initial.null.with_tag(HALT)),
                    ).with_code(initial.next())
                },
                Err(error) => error == Error::OutOfMemory,
            },
    {
        let mut memory = match Memory::new(heap) {
            Ok(memory) => memory,
            Err(error) => {
                return Err(error);
            },
        };
        if memory.space_size() < 8 {
            return Err(Error::OutOfMemory);
        }
        let halt = Value::Cons(memory.null().set_tag(HALT));

        match memory.allocate(Value::Number(Number::new(0)), halt) {
            Ok(code) => {
                memory.set_code(code);
                Ok(Vm { primitive_set, memory })
            },
            Err(error) => Err(error),
        }
    }

    /// Returns the memory.
    pub fn memory(&self) -> (result: &Memory)
        ensures
            *result == self.memory,
    {
        &self.memory
    }

    /// Returns the text of the memory.
    pub fn to_string(&self) -> (result: String)
        requires
            self.memory@.wf(),
        ensures
            result@ == self.memory@.text(),
    {
        self.memory.to_string()
    }

    /// Pushes a value onto the stack.
    pub fn push(&mut self, value: Value) -> (result: Result<(), Error>)
        requires
            old(self).memory@.wf(),
            old(self).memory@.valid(value),
        ensures
            final(self).memory@.wf(),
            final(self).primitive_set == old(self).primitive_set,
            old(self).memory@.pushing(value, final(self).memory@, result),
            result matches Err(error) ==> error == Error::OutOfMemory,
            !old(self).memory@.full() ==> result == Ok::<(), Error>(()) && final(self).memory@
                == old(self).memory@.pushed(value),
    {
        self.memory.push(value)
    }

    /// Pops a value from the stack.
    pub fn pop(&mut self) -> (result: Result<Value, Error>)
        requires
            old(self).memory@.wf(),
        ensures
            final(self).memory@.wf(),
            final(self).primitive_set == old(self).primitive_set,
            result == old(self).memory@.top_result(),
            final(self).memory@ == old(self).memory@.popped(),
            result matches Ok(value) ==> final(self).memory@.valid(value),
    {
        self.memory.pop()
    }

    /// Allocates a cell of two values.
    pub fn allocate(&mut self, car: Value, cdr: Value) -> (result: Result<Cons, Error>)
        requires
            old(self).memory@.wf(),
            old(self).memory@.valid(car),
            old(self).memory@.valid(cdr),
        ensures
            final(self).memory@.wf(),
            final(self).primitive_set == old(self).primitive_set,
            old(self).memory@.allocation(car, cdr, final(self).memory@, result),
            result matches Ok(cons) ==> final(self).memory@.allocated(cons.index as int)
                && cons.tag == 0,
            result matches Ok(cons) ==> final(self).memory@.start <= cons.index && cons.index + 1
                < final(self).memory@.start + final(self).memory@.size,
            final(self).memory@.used <= final(self).memory@.size,
            result matches Err(error) ==> error == Error::OutOfMemory,
            !old(self).memory@.full() ==> result == Ok::<Cons, Error>(old(self).memory@.next())
                && final(self).memory@ == old(self).memory@.with_cell(car, cdr),
    {
        self.memory.allocate(car, cdr)
    }

    /// Collects garbage.
    pub fn collect_garbages(&mut self)
        requires
            old(self).memory@.wf(),
        ensures
            final(self).memory@.wf(),
            final(self).primitive_set == old(self).primitive_set,
            exists|r: super::model::Relocation| #[trigger]
                old(self).memory@.collected(
                    Value::Number(Number(0)),
                    Value::Number(Number(0)),
                    r,
                    final(self).memory@,
                ),
    {
        let ghost before = self.memory@;
        self.memory.collect_garbages();
        proof {
            let zero = Value::Number(Number(0));
            let r = choose|r: super::model::Relocation| #[trigger]
                before.collected(zero, zero, r, self.memory@);
            assert(before.collected(zero, zero, r, self.memory@));
        }
    }

    /// Runs the primitive of a number.
    pub fn operate_primitive(&mut self, primitive: u64) -> (result: Result<(), Error>)
        requires
            old(self).memory@.wf(),
        ensures
            final(self).memory@.wf(),
            old(self).primitive_set.operation(
                old(self).memory@,
                primitive,
                final(self).primitive_set,
                final(self).memory@,
                result,
            ),
    {
        self.primitive_set.operate(&mut self.memory, primitive)
    }

    /// Moves the program counter on to the next instruction.
    fn advance_program_counter(&mut self) -> (result: Result<bool, Error>)
        requires
            old(self).memory@.wf(),
        ensures
            final(self).memory@.wf(),
            final(self).primitive_set == old(self).primitive_set,
            (final(self).memory@, result) == old(self).memory@.advanced(),
    {
        match self.memory.cdr(self.memory.code()) {
            Value::Cons(next) => {
                self.memory.set_code(next);
                Ok(false)
            },
            Value::Number(_) => Err(Error::ConsExpected),
        }
    }

    /// Returns the cell that the operand of the instruction stands for.
    fn operand(&self) -> (result: Result<Cons, Error>)
        requires
            self.memory@.wf(),
        ensures
            result == self.memory@.operand(),
            result matches Ok(cell) ==> self.memory@.allocated(cell.index as int),
    {
        match self.memory.car(self.memory.code()) {
            Value::Cons(cell) => Ok(cell),
            Value::Number(index) => self.memory.tail(self.memory.stack(), index.to_u64()),
        }
    }

    /// Returns the frame on a list: the first cell whose second slot carries
    /// the frame tag.  It looks at no more cells than are in use.
    fn frame(&self, list: Cons) -> (result: Result<Cons, Error>)
        requires
            self.memory@.wf(),
            self.memory@.allocated(list.index as int),
        ensures
            result == self.memory@.frame(list, (self.memory@.used / 2) as nat),
            result matches Ok(frame) ==> self.memory@.allocated(frame.index as int)
                && self.memory@.cdr(frame) is Cons,
    {
        let mut current = list;
        let mut limit = self.memory.allocation_index() / 2;

        loop
            invariant
                self.memory@.wf(),
                self.memory@.allocated(current.index as int),
                self.memory@.frame(current, limit as nat) == self.memory@.frame(
                    list,
                    (self.memory@.used / 2) as nat,
                ),
            decreases limit,
        {
            match self.memory.cdr(current) {
                Value::Number(_) => {
                    return Err(Error::ConsExpected);
                },
                Value::Cons(next) => {
                    if next.tag() == FRAME_TAG {
                        return Ok(current);
                    }
                    if limit == 0 {
                        return Err(Error::StackUnderflow);
                    }
                    current = next;
                    limit = limit - 1;
                },
            }
        }
    }

    /// Finds what a call of a procedure works on.
    fn call(&self, procedure: Cons) -> (result: Result<Call, Error>)
        requires
            self.memory@.wf(),
            self.memory@.allocated(procedure.index as int),
        ensures
            result == self.memory@.call(procedure),
            result matches Ok(call) ==> {
                &&& self.memory@.allocated(call.body.index as int)
                &&& self.memory@.allocated(call.environment.index as int)
                &&& self.memory@.allocated(call.last.index as int)
                &&& self.memory@.allocated(call.rest.index as int)
                &&& self.memory@.stack != self.memory@.null
                &&& call.count > 0 ==> self.memory@.cdr(self.memory@.stack) is Cons
            },
    {
        let code = match self.memory.car(procedure) {
            Value::Cons(code) => code,
            Value::Number(_) => {
                return Err(Error::ConsExpected);
            },
        };
        let parameters = match self.memory.car(code) {
            Value::Number(parameters) => parameters,
            Value::Cons(_) => {
                return Err(Error::NumberExpected);
            },
        };
        let body = match self.memory.cdr(code) {
            Value::Cons(body) => body,
            Value::Number(_) => {
                return Err(Error::ConsExpected);
            },
        };
        let environment = match self.memory.cdr(procedure) {
            Value::Cons(environment) => environment,
            Value::Number(_) => {
                return Err(Error::ConsExpected);
            },
        };
        if self.memory.stack() == self.memory.null() {
            return Err(Error::StackUnderflow);
        }
        let arguments = match self.memory.car(self.memory.stack()) {
            Value::Number(arguments) => arguments,
            Value::Cons(_) => {
                return Err(Error::NumberExpected);
            },
        };
        if arguments != parameters {
            return Err(Error::ArgumentCount);
        }
        let count = arguments.to_u64();
        let last = match self.memory.tail(self.memory.stack(), count) {
            Ok(last) => last,
            Err(_) => {
                return Err(Error::ConsExpected);
            },
        };
        match self.memory.cdr(last) {
            Value::Cons(rest) => Ok(Call { body, environment, count, last, rest }),
            Value::Number(_) => Err(Error::ConsExpected),
        }
    }

    /// Returns the stack of a procedure that is called.
    fn arguments(&self, call: &Call, frame: Cons) -> (result: Cons)
        requires
            self.memory@.wf(),
            self.memory@.allocated(frame.index as int),
            self.memory@.allocated(self.memory@.stack.index as int),
            call.count > 0 ==> self.memory@.cdr(self.memory@.stack) is Cons,
        ensures
            result == self.memory@.arguments(*call, frame),
            self.memory@.allocated(result.index as int),
    {
        if call.count == 0 {
            frame.set_tag(0)
        } else {
            match self.memory.cdr(self.memory.stack()) {
                Value::Cons(arguments) => arguments,
                Value::Number(_) => frame,
            }
        }
    }

    /// Applies a procedure that is a cell.
    fn apply(&mut self, procedure: Cons) -> (result: Result<bool, Error>)
        requires
            old(self).memory@.wf(),
            old(self).memory@.allocated(procedure.index as int),
            old(self).memory@.instruction() is Ok,
        ensures
            final(self).memory@.wf(),
            final(self).primitive_set == old(self).primitive_set,
            (final(self).memory@, result) == old(self).memory@.call_step(procedure),
    {
        let call = match self.call(procedure) {
            Ok(call) => call,
            Err(error) => {
                return Err(error);
            },
        };
        let tail = match self.memory.cdr(self.memory.code()) {
            Value::Cons(next) => next.index() == self.memory.null().index(),
            Value::Number(_) => false,
        };
        let stack = self.memory.stack();

        if tail {
            let frame = match self.frame(stack) {
                Ok(frame) => frame,
                Err(error) => {
                    return Err(error);
                },
            };
            let arguments = self.arguments(&call, frame);

            self.memory.set_cdr(call.last, Value::Cons(frame.set_tag(0)));
            self.memory.set_cdr(frame, Value::Cons(call.environment.set_tag(FRAME_TAG)));
            self.memory.set_stack(arguments);
            self.memory.set_code(call.body);
        } else {
            if self.memory.allocation_index() == self.memory.space_size() {
                return Err(Error::OutOfMemory);
            }
            let arguments = self.arguments(&call, stack);
            let caller = Value::Cons(self.memory.code());
            let saved = match self.memory.allocate(caller, Value::Cons(call.rest)) {
                Ok(saved) => saved,
                Err(error) => {
                    return Err(error);
                },
            };

            self.memory.set_car(stack, Value::Cons(saved));
            self.memory.set_cdr(call.last, Value::Cons(stack.set_tag(0)));
            self.memory.set_cdr(stack, Value::Cons(call.environment.set_tag(FRAME_TAG)));
            self.memory.set_stack(arguments);
            self.memory.set_code(call.body);
        }
        Ok(false)
    }

    /// Returns to the caller after a primitive that was applied in a tail
    /// call.
    fn return_to_caller(&mut self) -> (result: Result<bool, Error>)
        requires
            old(self).memory@.wf(),
        ensures
            final(self).memory@.wf(),
            final(self).primitive_set == old(self).primitive_set,
            (final(self).memory@, result) == old(self).memory@.returned(),
    {
        let stack = self.memory.stack();

        if stack == self.memory.null() {
            return Err(Error::StackUnderflow);
        }
        let frame = match self.frame(stack) {
            Ok(frame) => frame,
            Err(error) => {
                return Err(error);
            },
        };
        let saved = match self.memory.car(frame) {
            Value::Cons(saved) => saved,
            Value::Number(_) => {
                return Err(Error::ConsExpected);
            },
        };
        let caller = match self.memory.car(saved) {
            Value::Cons(caller) => caller,
            Value::Number(_) => {
                return Err(Error::ConsExpected);
            },
        };
        let next = match self.memory.cdr(caller) {
            Value::Cons(next) => next,
            Value::Number(_) => {
                return Err(Error::ConsExpected);
            },
        };
        let rest = self.memory.cdr(saved);

        self.memory.set_cdr(stack, rest);
        self.memory.set_code(next);
        Ok(false)
    }

    /// Pushes a value and moves on, where the space has room.
    fn push_and_advance(&mut self, value: Value) -> (result: Result<bool, Error>)
        requires
            old(self).memory@.wf(),
            old(self).memory@.valid(value),
            !old(self).memory@.full(),
        ensures
            final(self).memory@.wf(),
            final(self).primitive_set == old(self).primitive_set,
            (final(self).memory@, result) == old(self).memory@.push_step(value),
    {
        match self.memory.push(value) {
            Ok(_) => self.advance_program_counter(),
            Err(error) => Err(error),
        }
    }

    /// Pushes the value of a variable and moves on, where the space has
    /// room.
    fn get(&mut self) -> (result: Result<bool, Error>)
        requires
            old(self).memory@.wf(),
            !old(self).memory@.full(),
        ensures
            final(self).memory@.wf(),
            final(self).primitive_set == old(self).primitive_set,
            (final(self).memory@, result) == old(self).memory@.get_step(),
    {
        let cell = match self.operand() {
            Ok(cell) => cell,
            Err(error) => {
                return Err(error);
            },
        };
        let value = self.memory.car(cell);

        self.push_and_advance(value)
    }

    /// Pops a value into a variable and moves on.
    fn set(&mut self) -> (result: Result<bool, Error>)
        requires
            old(self).memory@.wf(),
        ensures
            final(self).memory@.wf(),
            final(self).primitive_set == old(self).primitive_set,
            (final(self).memory@, result) == old(self).memory@.set_step(),
    {
        let value = match self.memory.pop() {
            Ok(value) => value,
            Err(error) => {
                return Err(error);
            },
        };
        let cell = match self.operand() {
            Ok(cell) => cell,
            Err(error) => {
                return Err(error);
            },
        };

        self.memory.set_car(cell, value);
        self.advance_program_counter()
    }

    /// Pops a value and branches on it.
    fn branch(&mut self) -> (result: Result<bool, Error>)
        requires
            old(self).memory@.wf(),
        ensures
            final(self).memory@.wf(),
            final(self).primitive_set == old(self).primitive_set,
            (final(self).memory@, result) == old(self).memory@.if_step(),
    {
        let value = match self.memory.pop() {
            Ok(value) => value,
            Err(error) => {
                return Err(error);
            },
        };
        let target = if value == Value::Cons(self.memory.boolean(true)) {
            self.memory.car(self.memory.code())
        } else {
            self.memory.cdr(self.memory.code())
        };

        match target {
            Value::Cons(code) => {
                self.memory.set_code(code);
                Ok(false)
            },
            Value::Number(_) => Err(Error::ConsExpected),
        }
    }

    /// Applies the procedure of the instruction, where it is no primitive.
    fn apply_procedure(&mut self) -> (result: Result<bool, Error>)
        requires
            old(self).memory@.wf(),
            old(self).memory@.instruction() is Ok,
        ensures
            final(self).memory@.wf(),
            final(self).primitive_set == old(self).primitive_set,
            (final(self).memory@, result) == match old(self).memory@.procedure() {
                Err(error) => (old(self).memory@, Err::<bool, Error>(error)),
                Ok(Value::Cons(procedure)) => old(self).memory@.call_step(procedure),
                Ok(Value::Number(_)) => (old(self).memory@, Err(Error::IllegalPrimitive)),
            },
    {
        let cell = match self.operand() {
            Ok(cell) => cell,
            Err(error) => {
                return Err(error);
            },
        };

        match self.memory.car(cell) {
            Value::Cons(procedure) => self.apply(procedure),
            Value::Number(_) => Err(Error::IllegalPrimitive),
        }
    }

    /// Runs the instruction at the program counter, where it applies no
    /// primitive and there is room for what it allocates.
    fn step_plain(&mut self) -> (result: Result<bool, Error>)
        requires
            old(self).memory@.wf(),
        ensures
            final(self).memory@.wf(),
            final(self).primitive_set == old(self).primitive_set,
            (final(self).memory@, result) == old(self).memory@.step(),
    {
        let next = match self.memory.cdr(self.memory.code()) {
            Value::Cons(next) => next,
            Value::Number(_) => {
                return Err(Error::ConsExpected);
            },
        };
        let opcode = next.tag();

        if opcode == CONSTANT {
            if self.memory.allocation_index() == self.memory.space_size() {
                return Err(Error::OutOfMemory);
            }
            let value = self.memory.car(self.memory.code());

            self.push_and_advance(value)
        } else if opcode == GET {
            if self.memory.allocation_index() == self.memory.space_size() {
                return Err(Error::OutOfMemory);
            }
            self.get()
        } else if opcode == SET {
            self.set()
        } else if opcode == IF {
            self.branch()
        } else if opcode == NOP || opcode == SKIP {
            self.advance_program_counter()
        } else if opcode == HALT {
            Ok(true)
        } else if opcode == APPLY {
            self.apply_procedure()
        } else {
            Err(Error::IllegalInstruction)
        }
    }

    /// Tells what kind of instruction is at the program counter: the number
    /// of the primitive that it applies, if it applies one, and whether it
    /// needs room for a cell.
    fn dispatch(&self) -> (result: (Option<Number>, bool, bool))
        requires
            self.memory@.wf(),
        ensures
            result.0 == self.memory@.primitive(),
            result.1 == self.memory@.needs_room(),
            result.2 == self.memory@.is_tail(),
    {
        let next = match self.memory.cdr(self.memory.code()) {
            Value::Cons(next) => next,
            Value::Number(_) => {
                return (None, false, false);
            },
        };
        let opcode = next.tag();
        let tail = next.index() == self.memory.null().index();

        if opcode == CONSTANT || opcode == GET {
            (None, true, tail)
        } else if opcode == APPLY {
            match self.operand() {
                Ok(cell) => match self.memory.car(cell) {
                    Value::Number(primitive) => (Some(primitive), false, tail),
                    Value::Cons(procedure) => (None, !tail && self.call(procedure).is_ok(), tail),
                },
                Err(_) => (None, false, tail),
            }
        } else {
            (None, false, tail)
        }
    }

    /// Tells what an observer is told of the instruction at the program
    /// counter: whether it applies a primitive, whether it is a tail call, and
    /// whether it applies a procedure that is a cell.
    pub fn event(&self) -> (result: (bool, bool, bool))
        requires
            self.memory@.wf(),
        ensures
            result.0 == self.memory@.primitive() is Some,
            result.1 == self.memory@.is_tail(),
            result.2 == (self.memory@.instruction() is Ok && self.memory@.instruction()->Ok_0.tag
                == APPLY && self.memory@.procedure() is Ok && self.memory@.procedure()->Ok_0
                is Cons),
    {
        let next = match self.memory.cdr(self.memory.code()) {
            Value::Cons(next) => next,
            Value::Number(_) => {
                return (false, false, false);
            },
        };
        let tail = next.index() == self.memory.null().index();

        if next.tag() == APPLY {
            match self.operand() {
                Ok(cell) => match self.memory.car(cell) {
                    Value::Number(_) => (true, tail, false),
                    Value::Cons(_) => (false, tail, true),
                },
                Err(_) => (false, tail, false),
            }
        } else {
            (false, tail, false)
        }
    }

    /// Runs the instruction at the program counter and tells whether it ended
    /// the run.
    pub fn step(&mut self) -> (result: Result<bool, Error>)
        requires
            old(self).memory@.wf(),
        ensures
            final(self).memory@.wf(),
            stepping(
                old(self).primitive_set,
                old(self).memory@,
                final(self).primitive_set,
                final(self).memory@,
                result,
            ),
    {
        let (primitive, room, tail) = self.dispatch();

        match primitive {
            Some(primitive) => {
                match self.primitive_set.operate(&mut self.memory, primitive.to_u64()) {
                    Ok(_) => if tail {
                        self.return_to_caller()
                    } else {
                        self.advance_program_counter()
                    },
                    Err(error) => Err(error),
                }
            },
            None => {
                if room {
                    match self.memory.reserve() {
                        Ok(_) => self.step_plain(),
                        Err(error) => Err(error),
                    }
                } else {
                    self.step_plain()
                }
            },
        }
    }

    /// Runs at most `limit` instructions and tells whether the run has
    /// ended.  A run that has not ended goes on with the next call.
    pub fn run(&mut self, limit: usize) -> (result: Result<bool, Error>)
        requires
            old(self).memory@.wf(),
        ensures
            final(self).memory@.wf(),
            running(
                old(self).primitive_set,
                old(self).memory@,
                limit as nat,
                final(self).primitive_set,
                final(self).memory@,
                result,
            ),
    {
        let mut count: usize = 0;

        while count < limit
            invariant
                count <= limit,
                self.memory@.wf(),
                forall|after: T, new: MemoryView, result: Result<bool, Error>| #[trigger]
                    running(
                        self.primitive_set,
                        self.memory@,
                        (limit - count) as nat,
                        after,
                        new,
                        result,
                    ) ==> running(
                        old(self).primitive_set,
                        old(self).memory@,
                        limit as nat,
                        after,
                        new,
                        result,
                    ),
            decreases limit - count,
        {
            let ghost primitives = self.primitive_set;
            let ghost memory = self.memory@;
            let done = self.step();

            match done {
                Ok(false) => {},
                _ => {
                    assert(running(
                        primitives,
                        memory,
                        (limit - count) as nat,
                        self.primitive_set,
                        self.memory@,
                        done,
                    ));
                    return done;
                },
            }
            count = count + 1;
            proof {
                assert forall|after: T, new: MemoryView, result: Result<bool, Error>| #[trigger]
                    running(
                        self.primitive_set,
                        self.memory@,
                        (limit - count) as nat,
                        after,
                        new,
                        result,
                    ) implies running(
                    old(self).primitive_set,
                    old(self).memory@,
                    limit as nat,
                    after,
                    new,
                    result,
                ) by {
                    assert(stepping(primitives, memory, self.primitive_set, self.memory@, done));
                    assert(running(
                        primitives,
                        memory,
                        (limit - (count - 1)) as nat,
                        after,
                        new,
                        result,
                    ));
                }
            }
        }
        assert(running(
            self.primitive_set,
            self.memory@,
            (limit - count) as nat,
            self.primitive_set,
            self.memory@,
            Ok::<bool, Error>(false),
        ));
        Ok(false)
    }
}

} // verus!
